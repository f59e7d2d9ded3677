//! AES-256-CBC sealing of byte strings: the initialisation vector travels in
//! front of the ciphertext.

use vstd::prelude::*;

use openssl::error::ErrorStack;

verus! {

/// Length in bytes of an initialisation vector.
pub const IV_SIZE: usize = 16;

/// Largest length that the cipher calls accept for a key, an IV or a text
/// (the range of a C `int`).
pub const CIPHER_LEN_LIMIT: usize = 0x7fff_ffff;

/// Length in bytes of an AES-256 key.
pub const KEY_SIZE: usize = 32;

/// Length in bytes of an AES block.
pub const BLOCK_SIZE: usize = 16;

/// Longest text that is encrypted without the output length overflowing a
/// C `int`.
pub const PLAINTEXT_LIMIT: usize = 0x7fff_ffdf;

/// Longest ciphertext that is decrypted without the output length
/// overflowing a C `int`.
pub const CIPHERTEXT_LIMIT: usize = 0x7fff_ffef;

#[verifier::external_type_specification]
#[verifier::external_body]
pub struct ExErrorStack(ErrorStack);

#[verifier::external_type_specification]
#[verifier::external_body]
pub struct ExIoError(std::io::Error);

/// The AES-256-CBC ciphertext (PKCS#7 padding) of `data` under `key` and `iv`.
pub uninterp spec fn aes256_cbc_encrypt(key: Seq<u8>, iv: Seq<u8>, data: Seq<u8>) -> Seq<u8>;

/// Length of the AES-256-CBC ciphertext of `n` bytes: PKCS#7 padding adds
/// one to sixteen bytes, up to the next whole block.
pub open spec fn padded_len(n: nat) -> nat {
    BLOCK_SIZE as nat * (n / BLOCK_SIZE as nat + 1)
}

/// `data` is the ciphertext of some text under `key` and `iv`.
pub open spec fn is_ciphertext(key: Seq<u8>, iv: Seq<u8>, data: Seq<u8>) -> bool {
    exists|p: Seq<u8>| aes256_cbc_encrypt(key, iv, p) == data
}

/// `text` is a sealed text under `key`: an IV followed by the ciphertext of
/// some text under `key` and that IV.
pub open spec fn is_sealing(key: Seq<u8>, text: Seq<u8>) -> bool {
    &&& text.len() >= IV_SIZE
    &&& is_ciphertext(key, text.take(IV_SIZE as int), text.skip(IV_SIZE as int))
}

/// `plain` is what `data` decrypts to under `key` and `iv`: it encrypts to
/// `data`, and so does nothing else.
pub open spec fn decrypts_to(key: Seq<u8>, iv: Seq<u8>, data: Seq<u8>, plain: Seq<u8>) -> bool {
    &&& aes256_cbc_encrypt(key, iv, plain) == data
    &&& forall|q: Seq<u8>| aes256_cbc_encrypt(key, iv, q) == data ==> q == plain
}

/// A sealed text: the IV followed by the ciphertext of `data`.
pub open spec fn sealed(key: Seq<u8>, iv: Seq<u8>, data: Seq<u8>) -> Seq<u8> {
    iv + aes256_cbc_encrypt(key, iv, data)
}

/// `plain` is what the sealed text `sealed_text` opens to under `key`: the
/// first `IV_SIZE` bytes are the IV, the rest the ciphertext.
pub open spec fn opens_to(key: Seq<u8>, sealed_text: Seq<u8>, plain: Seq<u8>) -> bool {
    decrypts_to(
        key,
        sealed_text.take(IV_SIZE as int),
        sealed_text.skip(IV_SIZE as int),
        plain,
    )
}

/// The library's error for a failed cipher call.
#[derive(Debug)]
pub enum AesError {
    Cipher(ErrorStack),
}

/// `openssl::symm::encrypt` with AES-256-CBC and padding: the result is the
/// ciphertext of `data` under `key` and `iv`, whose length is `data`'s rounded
/// up to the next whole block. With a key of `KEY_SIZE` bytes (the cipher's
/// own key length, so no key length change is asked of OpenSSL) and a text
/// short enough that the output length fits a C `int`, the call succeeds.
/// When it fails otherwise is not stated.
#[verifier::external_body]
fn openssl_encrypt(key: &[u8], iv: &[u8], data: &[u8]) -> (r: Result<Vec<u8>, ErrorStack>)
    requires
        key@.len() <= CIPHER_LEN_LIMIT,
        iv@.len() == IV_SIZE,
        data@.len() <= CIPHER_LEN_LIMIT,
    ensures
        r matches Ok(c) ==> c@ == aes256_cbc_encrypt(key@, iv@, data@) && c@.len() == padded_len(
            data@.len(),
        ),
        key@.len() == KEY_SIZE && data@.len() <= PLAINTEXT_LIMIT ==> r is Ok,
{
    openssl::symm::encrypt(openssl::symm::Cipher::aes_256_cbc(), key, Some(iv), data)
}

/// `openssl::symm::decrypt` with AES-256-CBC and padding: the result is the
/// text that `data` is the ciphertext of under `key` and `iv` (no other text
/// has that ciphertext), so `data` is its length rounded up to the next whole
/// block. With a key of `KEY_SIZE` bytes, a `data` that is such a ciphertext
/// (so its padding is well formed) and short enough that the output length
/// fits a C `int`, the call succeeds. When it fails otherwise is not stated.
#[verifier::external_body]
fn openssl_decrypt(key: &[u8], iv: &[u8], data: &[u8]) -> (r: Result<Vec<u8>, ErrorStack>)
    requires
        key@.len() <= CIPHER_LEN_LIMIT,
        iv@.len() == IV_SIZE,
        data@.len() <= CIPHER_LEN_LIMIT,
    ensures
        r matches Ok(p) ==> decrypts_to(key@, iv@, data@, p@) && data@.len() == padded_len(
            p@.len(),
        ),
        key@.len() == KEY_SIZE && data@.len() <= CIPHERTEXT_LIMIT && is_ciphertext(
            key@,
            iv@,
            data@,
        ) ==> r is Ok,
{
    openssl::symm::decrypt(openssl::symm::Cipher::aes_256_cbc(), key, Some(iv), data)
}

/// `rand::random` for sixteen bytes: random bytes from the thread's
/// generator; nothing is stated of their values.
#[verifier::external_body]
fn random_iv_bytes() -> (r: Vec<u8>)
    ensures
        r@.len() == IV_SIZE,
{
    rand::random::<[u8; 16]>().to_vec()
}

/// Seals `data` under `key` and `iv`: the IV followed by the AES-256-CBC
/// ciphertext. Succeeds with a key of `KEY_SIZE` bytes and a text of at most
/// `PLAINTEXT_LIMIT` bytes; fails otherwise only when the cipher call fails.
pub fn aes_encrypt(key: &Vec<u8>, iv: &Vec<u8>, data: &Vec<u8>) -> (r: Result<Vec<u8>, AesError>)
    requires
        key@.len() <= CIPHER_LEN_LIMIT,
        iv@.len() == IV_SIZE,
        data@.len() <= CIPHER_LEN_LIMIT,
    ensures
        r matches Ok(c) ==> c@ == sealed(key@, iv@, data@) && c@.len() == IV_SIZE + padded_len(
            data@.len(),
        ),
        key@.len() == KEY_SIZE && data@.len() <= PLAINTEXT_LIMIT ==> r is Ok,
{
    match openssl_encrypt(key.as_slice(), iv.as_slice(), data.as_slice()) {
        Ok(ciphertext) => {
            let mut encrypted_data = iv.clone();
            let mut ct = ciphertext;
            encrypted_data.append(&mut ct);
            Ok(encrypted_data)
        },
        Err(e) => Err(AesError::Cipher(e)),
    }
}

/// Opens a sealed text under `key`: its first sixteen bytes are the IV, the
/// rest the ciphertext, whose length is the text's rounded up to the next
/// whole block. Succeeds with a key of `KEY_SIZE` bytes on a sealed text
/// under that key whose ciphertext has at most `CIPHERTEXT_LIMIT` bytes;
/// fails otherwise only when the cipher call fails.
pub fn aes_decrypt(key: &Vec<u8>, ciphertext: &Vec<u8>) -> (r: Result<Vec<u8>, AesError>)
    requires
        ciphertext@.len() >= IV_SIZE,
        key@.len() <= CIPHER_LEN_LIMIT,
        ciphertext@.len() <= CIPHER_LEN_LIMIT,
    ensures
        r matches Ok(p) ==> opens_to(key@, ciphertext@, p@) && ciphertext@.len() == IV_SIZE
            + padded_len(p@.len()),
        key@.len() == KEY_SIZE && ciphertext@.len() <= IV_SIZE + CIPHERTEXT_LIMIT && is_sealing(
            key@,
            ciphertext@,
        ) ==> r is Ok,
{
    let (iv_bytes, body) = ciphertext.as_slice().split_at(IV_SIZE);
    assert(iv_bytes@ =~= ciphertext@.take(IV_SIZE as int));
    assert(body@ =~= ciphertext@.skip(IV_SIZE as int));
    match openssl_decrypt(key.as_slice(), iv_bytes, body) {
        Ok(plaintext) => Ok(plaintext),
        Err(e) => Err(AesError::Cipher(e)),
    }
}

/// A fresh random initialisation vector of `IV_SIZE` bytes; never fails.
pub fn generate_aes_iv() -> (r: Result<Vec<u8>, std::io::Error>)
    ensures
        r matches Ok(iv) && iv@.len() == IV_SIZE,
{
    Ok(random_iv_bytes())
}

/// What is sealed with a sixteen-byte IV is a sealed text under the same key,
/// and it opens to nothing but the data that was sealed.
pub proof fn lemma_sealed_text_opens(key: Seq<u8>, iv: Seq<u8>, data: Seq<u8>)
    requires
        iv.len() == IV_SIZE,
    ensures
        is_sealing(key, sealed(key, iv, data)),
        forall|p: Seq<u8>| opens_to(key, sealed(key, iv, data), p) ==> p == data,
{
    let s = sealed(key, iv, data);
    assert(s.take(IV_SIZE as int) =~= iv);
    assert(s.skip(IV_SIZE as int) =~= aes256_cbc_encrypt(key, iv, data));
    assert(aes256_cbc_encrypt(key, iv, data) == s.skip(IV_SIZE as int));
}

/// Sealing with a key and a sixteen-byte IV and opening with the same key
/// gives back the data that was sealed.
pub proof fn lemma_seal_open_round_trip(
    key: Seq<u8>,
    iv: Seq<u8>,
    data: Seq<u8>,
    plain: Seq<u8>,
)
    requires
        iv.len() == IV_SIZE,
        opens_to(key, sealed(key, iv, data), plain),
    ensures
        plain == data,
{
    let s = sealed(key, iv, data);
    assert(s.take(IV_SIZE as int) =~= iv);
    assert(s.skip(IV_SIZE as int) =~= aes256_cbc_encrypt(key, iv, data));
}

} // verus!
