//! Key derivation and authenticated encryption: the passphrase yields the
//! AEAD key and the hotspot SSID, and each file chunk travels as one
//! AES-256-GCM frame under a per-file counter nonce.

use vstd::prelude::*;
use aes_gcm::KeyInit;
use aes_gcm::aead::Aead;
use sha2::Digest;

verus! {

use vstd::string::*;
use crate::CHUNKSIZE;
use crate::wire::{spec_u64_be, write_u64_be};

/// The SHA-256 digest of the given bytes.
pub uninterp spec fn sha256_of(data: Seq<u8>) -> Seq<u8>;

/// Relies on sha2's SHA-256: the digest is a function of the input bytes
/// alone and is always 32 bytes long.
#[verifier::external_body]
pub(crate) fn sha256(data: &[u8]) -> (r: Vec<u8>)
    ensures
        r@ == sha256_of(data@),
        r@.len() == 32,
{
    sha2::Sha256::digest(data).as_slice().to_vec()
}

/// The AES-256-GCM ciphertext (encrypted bytes with the 16-byte tag
/// appended) of `plaintext` under `key` and `nonce`, with empty associated
/// data.
pub uninterp spec fn aead_seal(key: Seq<u8>, nonce: Seq<u8>, plaintext: Seq<u8>) -> Seq<u8>;

/// Relies on aes-gcm's `Aead::encrypt` for AES-256-GCM: deterministic in
/// key, nonce and plaintext; the ciphertext is the encrypted bytes with the
/// 16-byte tag appended; encryption cannot fail for plaintexts this short.
#[verifier::external_body]
pub(crate) fn aead_encrypt(key: &[u8], nonce: &[u8], plaintext: &[u8]) -> (r: Vec<u8>)
    requires
        key@.len() == 32,
        nonce@.len() == 12,
        plaintext@.len() <= CHUNKSIZE,
    ensures
        r@ == aead_seal(key@, nonce@, plaintext@),
        r@.len() == plaintext@.len() + 16,
{
    let cipher = aes_gcm::Aes256Gcm::new_from_slice(key).expect("32-byte key");
    let nonce_arr: [u8; 12] = nonce.try_into().expect("12-byte nonce");
    cipher.encrypt(&nonce_arr.into(), plaintext).expect("chunk within AES-GCM bounds")
}

/// Relies on aes-gcm's `Aead::decrypt` for AES-256-GCM: it returns the
/// plaintext of any ciphertext that `encrypt` produces under the same key
/// and nonce, and fails (tag verification) on every other input.
#[verifier::external_body]
pub(crate) fn aead_decrypt(key: &[u8], nonce: &[u8], ciphertext: &[u8]) -> (r: Option<Vec<u8>>)
    requires
        key@.len() == 32,
        nonce@.len() == 12,
    ensures
        r is Some ==> ciphertext@ == aead_seal(key@, nonce@, r.unwrap()@)
            && r.unwrap()@.len() + 16 == ciphertext@.len(),
        forall|pt: Seq<u8>|
            pt.len() <= CHUNKSIZE && ciphertext@ == #[trigger] aead_seal(key@, nonce@, pt)
                ==> r is Some && r.unwrap()@ == pt,
{
    let cipher = aes_gcm::Aes256Gcm::new_from_slice(key).expect("32-byte key");
    let nonce_arr: [u8; 12] = nonce.try_into().expect("12-byte nonce");
    match cipher.decrypt(&nonce_arr.into(), ciphertext) {
        Ok(pt) => Some(pt),
        Err(_) => None,
    }
}

/// The 12-byte nonce for chunk number `counter` of a file: four zero bytes
/// followed by the big-endian counter. The counter restarts at zero for each
/// file; this never repeats a (key, nonce) pair within a file, and the key
/// is fresh per session.
pub open spec fn spec_nonce_bytes(counter: u64) -> Seq<u8> {
    seq![0u8, 0u8, 0u8, 0u8] + spec_u64_be(counter)
}

/// Builds the nonce for one chunk.
pub fn nonce_bytes(counter: u64) -> (r: Vec<u8>)
    ensures
        r@ == spec_nonce_bytes(counter),
        r@.len() == 12,
{
    let mut r: Vec<u8> = Vec::new();
    r.push(0);
    r.push(0);
    r.push(0);
    r.push(0);
    write_u64_be(&mut r, counter);
    proof {
        assert(r@ =~= spec_nonce_bytes(counter));
    }
    r
}

/// The lower-case hexadecimal character for one nibble.
pub open spec fn hex_char(d: int) -> char {
    if d < 10 {
        crate::text::digit_char(d)
    } else if d == 10 {
        'a'
    } else if d == 11 {
        'b'
    } else if d == 12 {
        'c'
    } else if d == 13 {
        'd'
    } else if d == 14 {
        'e'
    } else {
        'f'
    }
}

fn hex_char_str(d: u8) -> (r: &'static str)
    requires
        d < 16,
    ensures
        r@ == seq![hex_char(d as int)],
{
    proof {
        reveal_strlit("0");
        reveal_strlit("1");
        reveal_strlit("2");
        reveal_strlit("3");
        reveal_strlit("4");
        reveal_strlit("5");
        reveal_strlit("6");
        reveal_strlit("7");
        reveal_strlit("8");
        reveal_strlit("9");
        reveal_strlit("a");
        reveal_strlit("b");
        reveal_strlit("c");
        reveal_strlit("d");
        reveal_strlit("e");
        reveal_strlit("f");
    }
    let r: &'static str = if d == 0 {
        "0"
    } else if d == 1 {
        "1"
    } else if d == 2 {
        "2"
    } else if d == 3 {
        "3"
    } else if d == 4 {
        "4"
    } else if d == 5 {
        "5"
    } else if d == 6 {
        "6"
    } else if d == 7 {
        "7"
    } else if d == 8 {
        "8"
    } else if d == 9 {
        "9"
    } else if d == 10 {
        "a"
    } else if d == 11 {
        "b"
    } else if d == 12 {
        "c"
    } else if d == 13 {
        "d"
    } else if d == 14 {
        "e"
    } else {
        "f"
    };
    proof {
        assert(r@ =~= seq![hex_char(d as int)]);
    }
    r
}

/// The two lower-case hex characters of one byte.
pub open spec fn spec_byte_hex(b: u8) -> Seq<char> {
    seq![hex_char(b as int / 16), hex_char(b as int % 16)]
}

/// The hotspot name both ends derive from the same passphrase: a fixed
/// prefix followed by the hex of the first two key bytes.
pub open spec fn spec_ssid(key: Seq<u8>) -> Seq<char>
    recommends
        key.len() >= 2,
{
    "flyingCarpet_"@ + spec_byte_hex(key[0]) + spec_byte_hex(key[1])
}

/// The 32-byte AEAD key derived from a passphrase: the SHA-256 digest of
/// its UTF-8 bytes.
pub open spec fn spec_key(password: Seq<u8>) -> Seq<u8> {
    sha256_of(password)
}

/// Derives the session key and the deterministic SSID from the shared
/// passphrase. Both are functions of the passphrase alone, so two endpoints
/// that share the passphrase agree on both without any exchange; the key
/// itself is never transmitted.
pub fn get_key_and_ssid(password: &str) -> (r: (Vec<u8>, String))
    ensures
        r.0@ == spec_key(password.spec_bytes()),
        r.0@.len() == 32,
        r.1@ == spec_ssid(spec_key(password.spec_bytes())),
{
    let key = sha256(password.as_bytes());
    let mut ssid = String::from_str("flyingCarpet_");
    let b0 = key[0];
    let b1 = key[1];
    ssid.append(hex_char_str(b0 / 16));
    ssid.append(hex_char_str(b0 % 16));
    ssid.append(hex_char_str(b1 / 16));
    ssid.append(hex_char_str(b1 % 16));
    proof {
        assert(ssid@ =~= spec_ssid(spec_key(password.spec_bytes())));
    }
    (key, ssid)
}

/// Key derivation is deterministic: endpoints with equal passphrases derive
/// the same key and the same SSID. (That different passphrases give
/// different keys is a cryptographic property of SHA-256, outside what can
/// be proved here.)
pub proof fn lemma_derivation_deterministic(p1: Seq<u8>, p2: Seq<u8>)
    requires
        p1 == p2,
    ensures
        spec_key(p1) == spec_key(p2),
        spec_key(p1).len() >= 2 ==> spec_ssid(spec_key(p1)) == spec_ssid(spec_key(p2)),
{
}

} // verus!
