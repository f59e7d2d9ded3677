//! The bytes of the data file: serialised data, sealed when a key and an IV
//! are given.

use vstd::prelude::*;

use crate::aes_utils::{
    aes_decrypt, aes_encrypt, is_sealing, lemma_sealed_text_opens, opens_to, padded_len, sealed,
    AesError, BLOCK_SIZE, CIPHERTEXT_LIMIT, CIPHER_LEN_LIMIT, IV_SIZE, KEY_SIZE, PLAINTEXT_LIMIT,
};

verus! {

/// The bytes to store for the serialised data `serialized`: sealed under
/// `key` and `iv` when both are given, as they are otherwise. Sealing
/// succeeds with a key of `KEY_SIZE` bytes and data of at most
/// `PLAINTEXT_LIMIT` bytes; otherwise it fails only when the cipher call fails.
pub fn encode_file_data(
    serialized: &Vec<u8>,
    key: Option<&Vec<u8>>,
    iv: Option<&Vec<u8>>,
) -> (r: Result<Vec<u8>, AesError>)
    requires
        (key, iv) matches (Some(k), Some(v)) ==> k@.len() <= CIPHER_LEN_LIMIT && v@.len()
            == IV_SIZE && serialized@.len() <= CIPHER_LEN_LIMIT,
    ensures
        (key, iv) matches (Some(k), Some(v)) ==> (r matches Ok(c) ==> c@ == sealed(
            k@,
            v@,
            serialized@,
        ) && c@.len() == IV_SIZE + padded_len(serialized@.len())),
        (key, iv) matches (Some(k), Some(v)) ==> (k@.len() == KEY_SIZE && serialized@.len()
            <= PLAINTEXT_LIMIT ==> r is Ok),
        !(key is Some && iv is Some) ==> (r matches Ok(c) && c@ == serialized@),
{
    match (key, iv) {
        (Some(key_value), Some(iv_value)) => aes_encrypt(key_value, iv_value, serialized),
        _ => Ok(serialized.clone()),
    }
}

/// The serialised data held by the stored bytes `content`: opened under
/// `key` when one is given, as they are otherwise. Opening succeeds with a
/// key of `KEY_SIZE` bytes on a sealed text under that key (ciphertext of at
/// most `CIPHERTEXT_LIMIT` bytes); otherwise it fails only when the cipher
/// call fails.
pub fn decode_file_data(content: &Vec<u8>, key: Option<&Vec<u8>>) -> (r: Result<Vec<u8>, AesError>)
    requires
        key matches Some(k) ==> content@.len() >= IV_SIZE && content@.len() <= CIPHER_LEN_LIMIT
            && k@.len() <= CIPHER_LEN_LIMIT,
    ensures
        key matches Some(k) ==> (r matches Ok(p) ==> opens_to(k@, content@, p@) && content@.len()
            == IV_SIZE + padded_len(p@.len())),
        key matches Some(k) ==> (k@.len() == KEY_SIZE && content@.len() <= IV_SIZE
            + CIPHERTEXT_LIMIT && is_sealing(k@, content@) ==> r is Ok),
        key is None ==> (r matches Ok(p) && p@ == content@),
{
    match key {
        Some(key_value) => aes_decrypt(key_value, content),
        None => Ok(content.clone()),
    }
}

/// The padded length of a text is a whole number of blocks, longer than the
/// text by one to sixteen bytes.
pub proof fn lemma_padded_len_bound(n: nat)
    ensures
        n < padded_len(n) <= n + BLOCK_SIZE,
        padded_len(n) % BLOCK_SIZE as nat == 0,
{
    assert(16 * (n / 16) <= n && n < 16 * (n / 16) + 16) by (nonlinear_arith);
    assert((16 * (n / 16 + 1)) % 16 == 0) by (nonlinear_arith);
}

/// What the data file stores for data sealed with a key of `KEY_SIZE` bytes
/// and a sixteen-byte IV is read back with that key: opening is owed, and
/// it gives back exactly the data that was stored.
pub proof fn lemma_file_data_read_back(key: Seq<u8>, iv: Seq<u8>, data: Seq<u8>, stored: Seq<u8>)
    requires
        key.len() == KEY_SIZE,
        iv.len() == IV_SIZE,
        data.len() <= PLAINTEXT_LIMIT,
        stored == sealed(key, iv, data),
        stored.len() == IV_SIZE + padded_len(data.len()),
    ensures
        IV_SIZE <= stored.len() <= CIPHER_LEN_LIMIT,
        stored.len() <= IV_SIZE + CIPHERTEXT_LIMIT,
        is_sealing(key, stored),
        forall|p: Seq<u8>| opens_to(key, stored, p) ==> p == data,
{
    lemma_padded_len_bound(data.len());
    lemma_sealed_text_opens(key, iv, data);
}

} // verus!
