use verix::aes_utils::{aes_decrypt, aes_encrypt, generate_aes_iv, IV_SIZE};
use verix::file_utils::{decode_file_data, encode_file_data};

fn hex(s: &str) -> Vec<u8> {
    (0..s.len()).step_by(2).map(|i| u8::from_str_radix(&s[i..i + 2], 16).unwrap()).collect()
}

fn nist_key() -> Vec<u8> {
    hex("603deb1015ca71be2b73aef0857d77811f352c073b6108d72d9810a30914dff4")
}

#[test]
fn encryption_matches_the_aes256_cbc_test_vector() {
    let iv = hex("000102030405060708090a0b0c0d0e0f");
    let data = hex("6bc1bee22e409f96e93d7e117393172a");
    let sealed = aes_encrypt(&nist_key(), &iv, &data).unwrap();
    assert_eq!(sealed.len(), 16 + 32);
    assert_eq!(&sealed[..16], &iv[..]);
    assert_eq!(&sealed[16..32], &hex("f58c4c04d6e5f1ba779eabfb5f7bfbd6")[..]);
}

#[test]
fn sealed_data_opens_to_itself() {
    let key = nist_key();
    let iv = generate_aes_iv().unwrap();
    assert_eq!(iv.len(), IV_SIZE);
    let data = b"device record bytes".to_vec();
    let sealed = aes_encrypt(&key, &iv, &data).unwrap();
    assert_eq!(aes_decrypt(&key, &sealed).unwrap(), data);
}

#[test]
fn wrong_key_length_is_an_error() {
    let iv = vec![0u8; 16];
    assert!(aes_encrypt(&vec![1u8; 5], &iv, &vec![1, 2, 3]).is_err());
}

#[test]
fn tampered_ciphertext_does_not_open() {
    let key = nist_key();
    let iv = vec![7u8; 16];
    let mut sealed = aes_encrypt(&key, &iv, &b"abc".to_vec()).unwrap();
    let last = sealed.len() - 1;
    sealed[last] ^= 0x55;
    match aes_decrypt(&key, &sealed) {
        Ok(p) => assert_ne!(p, b"abc".to_vec()),
        Err(_) => {}
    }
}

#[test]
fn random_ivs_differ() {
    let a = generate_aes_iv().unwrap();
    let b = generate_aes_iv().unwrap();
    assert_eq!(a.len(), 16);
    assert_ne!(a, b);
}

#[test]
fn file_data_round_trip() {
    let key = nist_key();
    let iv = vec![3u8; 16];
    let data = vec![9u8, 8, 7, 6];
    let stored = encode_file_data(&data, Some(&key), Some(&iv)).unwrap();
    assert_ne!(stored, data);
    assert_eq!(&stored[..16], &iv[..]);
    assert_eq!(decode_file_data(&stored, Some(&key)).unwrap(), data);
}

#[test]
fn file_data_without_key_is_stored_as_is() {
    let data = vec![1u8, 2, 3];
    assert_eq!(encode_file_data(&data, None, None).unwrap(), data);
    assert_eq!(encode_file_data(&data, Some(&nist_key()), None).unwrap(), data);
    assert_eq!(decode_file_data(&data, None).unwrap(), data);
}

#[test]
fn sealing_adds_a_whole_padding_block_to_aligned_data() {
    let sealed = aes_encrypt(&vec![0u8; 32], &vec![7u8; 16], &vec![1u8; 16]).unwrap();
    assert_eq!(sealed.len(), 48);
    assert_eq!(&sealed[..16], &[7u8; 16][..]);
    let sealed = aes_encrypt(&vec![0u8; 32], &vec![7u8; 16], &vec![1u8; 5]).unwrap();
    assert_eq!(sealed.len(), 32);
    let sealed = aes_encrypt(&vec![0u8; 32], &vec![7u8; 16], &Vec::new()).unwrap();
    assert_eq!(sealed.len(), 32);
}

#[test]
fn opened_text_is_shorter_than_its_ciphertext() {
    let key = nist_key();
    for n in [0usize, 1, 15, 16, 17, 40] {
        let data = vec![0xabu8; n];
        let sealed = aes_encrypt(&key, &vec![2u8; 16], &data).unwrap();
        assert_eq!(sealed.len(), 16 + 16 * (n / 16 + 1));
        let opened = aes_decrypt(&key, &sealed).unwrap();
        assert_eq!(opened, data);
    }
}
