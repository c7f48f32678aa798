//! Key derivation (RFC 9001 Section 5).

use crate::aead::{hkdf, hkdf_sha256, MAX_HKDF_LEN};
use crate::error::{Error, Reason};
use vstd::prelude::*;

verus! {

/// QUIC version 1 salt for initial packet protection per RFC 9001 Section 5.2
pub const INITIAL_SALT: [u8; 20] = [
    0x38, 0x76, 0x2c, 0xf7, 0xf5, 0x59, 0x34, 0xb3, 0x4d, 0x17, 0x9a, 0xe6, 0xa4, 0xc8, 0x0c, 0xad,
    0xcc, 0xbb, 0x7f, 0x0a,
];

/// The label prefix `tls13 quic `
pub const QUIC_VERSION_LABEL: [u8; 11] = [
    0x74, 0x6c, 0x73, 0x31, 0x33, 0x20, 0x71, 0x75, 0x69, 0x63, 0x20,
];

/// The label prefix `tls13 `
pub const TLS_LABEL: [u8; 6] = [0x74, 0x6c, 0x73, 0x31, 0x33, 0x20];

/// The label `client in`
pub const CLIENT_IN: [u8; 9] = [0x63, 0x6c, 0x69, 0x65, 0x6e, 0x74, 0x20, 0x69, 0x6e];

/// The label `server in`
pub const SERVER_IN: [u8; 9] = [0x73, 0x65, 0x72, 0x76, 0x65, 0x72, 0x20, 0x69, 0x6e];

/// The label `quic key`
pub const QUIC_KEY: [u8; 8] = [0x71, 0x75, 0x69, 0x63, 0x20, 0x6b, 0x65, 0x79];

/// The label `quic iv`
pub const QUIC_IV: [u8; 7] = [0x71, 0x75, 0x69, 0x63, 0x20, 0x69, 0x76];

/// The label `quic hp`
pub const QUIC_HP: [u8; 7] = [0x71, 0x75, 0x69, 0x63, 0x20, 0x68, 0x70];

/// The label `quic ku`
pub const QUIC_KU: [u8; 7] = [0x71, 0x75, 0x69, 0x63, 0x20, 0x6b, 0x75];

/// The info that HKDF-Expand-Label expands with: the output length in two bytes, the
/// label behind its prefix, and the context, both behind their lengths.
pub open spec fn hkdf_info(
    prefix: Seq<u8>,
    label: Seq<u8>,
    context: Seq<u8>,
    length: nat,
) -> Seq<u8> {
    seq![
        ((length / 256) % 256) as u8,
        (length % 256) as u8,
        ((prefix.len() + label.len()) % 256) as u8,
    ] + prefix + label + seq![(context.len() % 256) as u8] + context
}

/// Builds the info for a label with the given prefix
fn build_info(prefix: &[u8], label: &[u8], context: &[u8], length: usize) -> (r: Vec<u8>)
    requires
        prefix@.len() <= 11,
    ensures
        r@ == hkdf_info(prefix@, label@, context@, length as nat),
{
    let mut info: Vec<u8> = Vec::new();
    info.push(((length / 256) % 256) as u8);
    info.push((length % 256) as u8);
    info.push(((prefix.len() % 256 + label.len() % 256) % 256) as u8);
    info.extend_from_slice(prefix);
    info.extend_from_slice(label);
    info.push((context.len() % 256) as u8);
    info.extend_from_slice(context);
    assert(info@ =~= hkdf_info(prefix@, label@, context@, length as nat));
    info
}

/// Build HKDF info structure for key derivation
pub fn build_hkdf_info(label: &[u8], context: &[u8], length: usize) -> (r: Vec<u8>)
    ensures
        r@ == hkdf_info(TLS_LABEL@, label@, context@, length as nat),
{
    build_info(&TLS_LABEL, label, context, length)
}

/// What HKDF-Expand-Label gives for a secret, a label and a context.
pub open spec fn expanded_label(
    secret: Seq<u8>,
    label: Seq<u8>,
    context: Seq<u8>,
    length: nat,
) -> Seq<u8> {
    hkdf_sha256(
        Seq::empty(),
        secret,
        hkdf_info(QUIC_VERSION_LABEL@, label, context, length),
        length,
    )
}

/// Derive QUIC keys using HKDF-Expand-Label
pub fn hkdf_expand_label(secret: &[u8], label: &[u8], context: &[u8], length: usize) -> (r: Result<
    Vec<u8>,
    Error,
>)
    ensures
        length <= MAX_HKDF_LEN ==> r is Ok && r->Ok_0@ == expanded_label(
            secret@,
            label@,
            context@,
            length as nat,
        ) && r->Ok_0@.len() == length,
        length > MAX_HKDF_LEN ==> r == Err::<Vec<u8>, Error>(
            Error::Crypto(Reason::Text("HKDF expand failed")),
        ),
{
    let info: Vec<u8> = build_info(&QUIC_VERSION_LABEL, label, context, length);
    let salt: Vec<u8> = Vec::new();
    assert(salt@ =~= Seq::<u8>::empty());
    match hkdf(&salt, secret, &info, length) {
        Ok(output) => Ok(output),
        Err(_) => Err(Error::Crypto(Reason::Text("HKDF expand failed"))),
    }
}

/// The initial secret of one side.
pub open spec fn initial_secret(connection_id: Seq<u8>, label: Seq<u8>) -> Seq<u8> {
    hkdf_sha256(
        INITIAL_SALT@,
        connection_id,
        hkdf_info(TLS_LABEL@, label, Seq::empty(), 32),
        32,
    )
}

/// Derives the initial secret of one side
fn derive_initial_secret(connection_id: &[u8], label: &[u8]) -> (r: Result<Vec<u8>, Error>)
    ensures
        r is Ok,
        r->Ok_0@ == initial_secret(connection_id@, label@),
        r->Ok_0@.len() == 32,
{
    let context: Vec<u8> = Vec::new();
    assert(context@ =~= Seq::<u8>::empty());
    let info: Vec<u8> = build_hkdf_info(label, &context, 32);
    match hkdf(&INITIAL_SALT, connection_id, &info, 32) {
        Ok(secret) => Ok(secret),
        Err(_) => Err(Error::Crypto(Reason::Text("Failed to derive initial secrets"))),
    }
}

/// Derive initial secrets from connection ID per RFC 9001: the client's and the server's
pub fn derive_initial_secrets(connection_id: &[u8]) -> (r: Result<(Vec<u8>, Vec<u8>), Error>)
    ensures
        r is Ok,
        r->Ok_0.0@ == initial_secret(connection_id@, CLIENT_IN@),
        r->Ok_0.1@ == initial_secret(connection_id@, SERVER_IN@),
        r->Ok_0.0@.len() == 32,
        r->Ok_0.1@.len() == 32,
{
    let client_secret: Vec<u8> = derive_initial_secret(connection_id, &CLIENT_IN)?;
    let server_secret: Vec<u8> = derive_initial_secret(connection_id, &SERVER_IN)?;
    Ok((client_secret, server_secret))
}

} // verus!
