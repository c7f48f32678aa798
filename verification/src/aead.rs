//! Authenticated encryption and key derivation as `ring` provides them.
//!
//! The ciphertext that a key makes of a plaintext, and the output of HKDF, are given
//! names. What is said of them is what `ring` documents: lengths, when the calls succeed,
//! and that opening undoes sealing.

use ring::aead::{Aad, LessSafeKey, Nonce, UnboundKey};
use vstd::prelude::*;

verus! {

/// Length of an authentication tag.
pub const TAG_LEN: usize = 16;

/// Length of a nonce.
pub const NONCE_LEN: usize = 12;

/// The longest input for which sealing is said to succeed.
pub const MAX_SEAL_LEN: u64 = 0xffff_ffff;

/// The longest output of HKDF with SHA-256.
pub const MAX_HKDF_LEN: usize = 8160;

/// Cipher suite for QUIC
#[derive(Debug, Clone, Copy, PartialEq, Eq, Structural)]
pub enum CipherSuite {
    /// AES-128-GCM cipher suite
    Aes128Gcm,
    /// AES-256-GCM cipher suite
    Aes256Gcm,
    /// ChaCha20-Poly1305 cipher suite
    ChaCha20Poly1305,
}

impl CipherSuite {
    /// Length of the keys of a suite.
    pub open spec fn key_bytes(self) -> nat {
        match self {
            CipherSuite::Aes128Gcm => 16,
            CipherSuite::Aes256Gcm => 32,
            CipherSuite::ChaCha20Poly1305 => 32,
        }
    }

    /// A number for each suite.
    pub open spec fn id(self) -> int {
        match self {
            CipherSuite::Aes128Gcm => 0,
            CipherSuite::Aes256Gcm => 1,
            CipherSuite::ChaCha20Poly1305 => 2,
        }
    }

    /// Length of the keys of a suite
    pub fn key_len(&self) -> (r: usize)
        ensures
            r == self.key_bytes(),
    {
        match self {
            CipherSuite::Aes128Gcm => 16,
            CipherSuite::Aes256Gcm => 32,
            CipherSuite::ChaCha20Poly1305 => 32,
        }
    }

    /// Length of the header protection keys of a suite
    pub fn hp_len(&self) -> (r: usize)
        ensures
            r == (if *self == CipherSuite::ChaCha20Poly1305 {
                32int
            } else {
                16
            }),
    {
        match self {
            CipherSuite::Aes128Gcm | CipherSuite::Aes256Gcm => 16,
            CipherSuite::ChaCha20Poly1305 => 32,
        }
    }
}

/// What `ring` makes of a plaintext: the ciphertext with the tag behind it.
pub uninterp spec fn aead_sealed(
    suite: int,
    key: Seq<u8>,
    nonce: Seq<u8>,
    aad: Seq<u8>,
    plaintext: Seq<u8>,
) -> Seq<u8>;

/// What `ring` makes of a ciphertext with its tag: the plaintext, or nothing where the
/// tag does not fit.
pub uninterp spec fn aead_opened(
    suite: int,
    key: Seq<u8>,
    nonce: Seq<u8>,
    aad: Seq<u8>,
    ciphertext: Seq<u8>,
) -> Option<Seq<u8>>;

/// The output of HKDF with SHA-256 (RFC 5869): extract with a salt, then expand.
pub uninterp spec fn hkdf_sha256(
    salt: Seq<u8>,
    secret: Seq<u8>,
    info: Seq<u8>,
    len: nat,
) -> Seq<u8>;

/// The output of the expand step of HKDF with SHA-256 (RFC 5869) for a given
/// pseudorandom key.
pub uninterp spec fn hkdf_expand_sha256(prk: Seq<u8>, info: Seq<u8>, len: nat) -> Seq<u8>;

/// `ring::aead::LessSafeKey::seal_in_place_append_tag` on a copy of the plaintext, with
/// a key made by `ring::aead::UnboundKey::new`. It fails where the key has the wrong length;
/// with a key of the right length and inputs of ordinary size it succeeds. The result is
/// longer than the plaintext by the tag, and opening it with the same key, nonce and
/// associated data gives the plaintext.
#[verifier::external_body]
pub(crate) fn aead_seal(
    suite: CipherSuite,
    key: &[u8],
    nonce: &[u8; 12],
    aad: &[u8],
    plaintext: &[u8],
) -> (r: Result<Vec<u8>, ring::error::Unspecified>)
    ensures
        match r {
            Ok(c) => {
                &&& key@.len() == suite.key_bytes()
                &&& c@ == aead_sealed(suite.id(), key@, nonce@, aad@, plaintext@)
                &&& c@.len() == plaintext@.len() + TAG_LEN
                &&& aead_opened(suite.id(), key@, nonce@, aad@, c@) == Some(plaintext@)
            },
            Err(_) => key@.len() != suite.key_bytes() || plaintext@.len() > MAX_SEAL_LEN
                || aad@.len() > MAX_SEAL_LEN,
        },
{
    let algorithm = match suite {
        CipherSuite::Aes128Gcm => &ring::aead::AES_128_GCM,
        CipherSuite::Aes256Gcm => &ring::aead::AES_256_GCM,
        CipherSuite::ChaCha20Poly1305 => &ring::aead::CHACHA20_POLY1305,
    };
    let key = LessSafeKey::new(UnboundKey::new(algorithm, key)?);
    let mut buffer = plaintext.to_vec();
    key.seal_in_place_append_tag(
        Nonce::assume_unique_for_key(*nonce),
        Aad::from(aad),
        &mut buffer,
    )?;
    Ok(buffer)
}

/// `ring::aead::LessSafeKey::open_in_place` on a copy of the ciphertext, with a key made
/// by `ring::aead::UnboundKey::new`. The plaintext is shorter than the ciphertext by the
/// tag. It fails exactly where there is no plaintext to these inputs.
#[verifier::external_body]
pub(crate) fn aead_open(
    suite: CipherSuite,
    key: &[u8],
    nonce: &[u8; 12],
    aad: &[u8],
    ciphertext: &[u8],
) -> (r: Result<Vec<u8>, ring::error::Unspecified>)
    ensures
        match r {
            Ok(p) => aead_opened(suite.id(), key@, nonce@, aad@, ciphertext@) == Some(p@)
                && p@.len() + TAG_LEN == ciphertext@.len(),
            Err(_) => aead_opened(suite.id(), key@, nonce@, aad@, ciphertext@) is None,
        },
{
    let algorithm = match suite {
        CipherSuite::Aes128Gcm => &ring::aead::AES_128_GCM,
        CipherSuite::Aes256Gcm => &ring::aead::AES_256_GCM,
        CipherSuite::ChaCha20Poly1305 => &ring::aead::CHACHA20_POLY1305,
    };
    let key = LessSafeKey::new(UnboundKey::new(algorithm, key)?);
    let mut buffer = ciphertext.to_vec();
    let nonce = Nonce::assume_unique_for_key(*nonce);
    Ok(key.open_in_place(nonce, Aad::from(aad), &mut buffer)?.to_vec())
}

/// Length of the output that is asked of HKDF.
struct OutputLen(usize);

impl ring::hkdf::KeyType for OutputLen {
    fn len(&self) -> usize {
        self.0
    }
}

/// `ring::hkdf::Salt::extract`, `Prk::expand` and `Okm::fill` with SHA-256. The output has
/// the length that is asked for; it fails where that is more than 255 hash values.
#[verifier::external_body]
pub(crate) fn hkdf(salt: &[u8], secret: &[u8], info: &[u8], len: usize) -> (r: Result<
    Vec<u8>,
    ring::error::Unspecified,
>)
    ensures
        match r {
            Ok(v) => len <= MAX_HKDF_LEN && v@.len() == len && v@ == hkdf_sha256(
                salt@,
                secret@,
                info@,
                len as nat,
            ),
            Err(_) => len > MAX_HKDF_LEN,
        },
{
    let prk = ring::hkdf::Salt::new(ring::hkdf::HKDF_SHA256, salt).extract(secret);
    let info = [info];
    let okm = prk.expand(&info, OutputLen(len))?;
    let mut output = vec![0u8; len];
    okm.fill(&mut output)?;
    Ok(output)
}

/// `ring::hkdf::Prk::new_less_safe`, `Prk::expand` and `Okm::fill` with SHA-256. The output
/// has the length that is asked for; it fails where that is more than 255 hash values.
#[verifier::external_body]
pub(crate) fn hkdf_expand(prk: &[u8], info: &[u8], len: usize) -> (r: Result<
    Vec<u8>,
    ring::error::Unspecified,
>)
    ensures
        match r {
            Ok(v) => len <= MAX_HKDF_LEN && v@.len() == len && v@ == hkdf_expand_sha256(
                prk@,
                info@,
                len as nat,
            ),
            Err(_) => len > MAX_HKDF_LEN,
        },
{
    let prk = ring::hkdf::Prk::new_less_safe(ring::hkdf::HKDF_SHA256, prk);
    let info = [info];
    let okm = prk.expand(&info, OutputLen(len))?;
    let mut output = vec![0u8; len];
    okm.fill(&mut output)?;
    Ok(output)
}

/// The nonce of a packet: the number of the packet is laid over the last eight bytes of
/// the IV.
pub open spec fn nonce_of(iv: Seq<u8>, pn: u64) -> Seq<u8> {
    Seq::new(
        iv.len(),
        |i: int|
            if 4 <= i < 12 {
                iv[i] ^ number_byte(pn, 11 - i)
            } else {
                iv[i]
            },
    )
}

/// The byte of a number at a position, counted from the low end.
pub open spec fn number_byte(pn: u64, i: int) -> u8 {
    if i == 0 {
        (pn % 256) as u8
    } else if i == 1 {
        ((pn / 0x100) % 256) as u8
    } else if i == 2 {
        ((pn / 0x1_0000) % 256) as u8
    } else if i == 3 {
        ((pn / 0x100_0000) % 256) as u8
    } else if i == 4 {
        ((pn / 0x1_0000_0000) % 256) as u8
    } else if i == 5 {
        ((pn / 0x100_0000_0000) % 256) as u8
    } else if i == 6 {
        ((pn / 0x1_0000_0000_0000) % 256) as u8
    } else {
        ((pn / 0x100_0000_0000_0000) % 256) as u8
    }
}

/// Compute nonce from IV and packet number
pub fn packet_nonce(iv: &[u8; 12], pn: u64) -> (r: [u8; 12])
    ensures
        r@ == nonce_of(iv@, pn),
{
    let mut nonce: [u8; 12] = *iv;
    nonce[11] = iv[11] ^ (pn % 256) as u8;
    nonce[10] = iv[10] ^ ((pn / 0x100) % 256) as u8;
    nonce[9] = iv[9] ^ ((pn / 0x1_0000) % 256) as u8;
    nonce[8] = iv[8] ^ ((pn / 0x100_0000) % 256) as u8;
    nonce[7] = iv[7] ^ ((pn / 0x1_0000_0000) % 256) as u8;
    nonce[6] = iv[6] ^ ((pn / 0x100_0000_0000) % 256) as u8;
    nonce[5] = iv[5] ^ ((pn / 0x1_0000_0000_0000) % 256) as u8;
    nonce[4] = iv[4] ^ ((pn / 0x100_0000_0000_0000) % 256) as u8;
    assert(nonce@ =~= nonce_of(iv@, pn));
    nonce
}

/// Laying a byte over two bytes tells apart what was different.
proof fn lemma_xor_injective(a: u8, x: u8, y: u8)
    requires
        a ^ x == a ^ y,
    ensures
        x == y,
{
    assert(a ^ x == a ^ y ==> x == y) by (bit_vector);
}

/// No two packets get the same nonce under one IV.
pub proof fn nonces_differ(iv: Seq<u8>, a: u64, b: u64)
    requires
        iv.len() == 12,
        a != b,
    ensures
        nonce_of(iv, a) != nonce_of(iv, b),
{
    if nonce_of(iv, a) == nonce_of(iv, b) {
        assert forall|i: int| 0 <= i < 8 implies number_byte(a, i) == number_byte(b, i) by {
            assert(nonce_of(iv, a)[11 - i] == nonce_of(iv, b)[11 - i]);
            lemma_xor_injective(iv[11 - i], number_byte(a, i), number_byte(b, i));
        }
        assert(number_byte(a, 0) == number_byte(b, 0));
        assert(number_byte(a, 1) == number_byte(b, 1));
        assert(number_byte(a, 2) == number_byte(b, 2));
        assert(number_byte(a, 3) == number_byte(b, 3));
        assert(number_byte(a, 4) == number_byte(b, 4));
        assert(number_byte(a, 5) == number_byte(b, 5));
        assert(number_byte(a, 6) == number_byte(b, 6));
        assert(number_byte(a, 7) == number_byte(b, 7));
        lemma_number_of_bytes(a);
        lemma_number_of_bytes(b);
    }
}

/// A number is the sum of its bytes at their places.
proof fn lemma_number_of_bytes(n: u64)
    ensures
        n == number_byte(n, 0) + 0x100 * number_byte(n, 1) + 0x1_0000 * number_byte(n, 2)
            + 0x100_0000 * number_byte(n, 3) + 0x1_0000_0000 * number_byte(n, 4)
            + 0x100_0000_0000 * number_byte(n, 5) + 0x1_0000_0000_0000 * number_byte(n, 6)
            + 0x100_0000_0000_0000 * number_byte(n, 7),
{
    assert(n / 0x100 / 0x100 == n / 0x1_0000);
    assert(n / 0x1_0000 / 0x100 == n / 0x100_0000);
    assert(n / 0x100_0000 / 0x100 == n / 0x1_0000_0000);
    assert(n / 0x1_0000_0000 / 0x100 == n / 0x100_0000_0000);
    assert(n / 0x100_0000_0000 / 0x100 == n / 0x1_0000_0000_0000);
    assert(n / 0x1_0000_0000_0000 / 0x100 == n / 0x100_0000_0000_0000);
}

} // verus!
