use netease_toolkit::crypto::{aes_ecb_decrypt, aes_ecb_encrypt, encrypt_params, md5_hex, netease_encrypt_id};
use netease_toolkit::json::{parse_json, JsonValue};
use netease_toolkit::text::hex_lower;

fn doc(text: &str) -> JsonValue {
    parse_json(text).unwrap()
}

const AES_KEY: &[u8; 16] = b"e82ckenh8dichen8";

#[test]
fn test_md5_hex() {
    let result = md5_hex("hello");
    assert_eq!(result.len(), 32);
}

#[test]
fn test_aes_roundtrip() {
    let data = b"hello world! test data 123";
    let encrypted = aes_ecb_encrypt(data, AES_KEY);
    let decrypted = aes_ecb_decrypt(AES_KEY, &encrypted);
    assert_eq!(&decrypted, data);
}

#[test]
fn test_netease_encrypt_id() {
    let enc = netease_encrypt_id("12345");
    assert!(!enc.is_empty());
    assert!(!enc.contains('/'));
    assert!(!enc.contains('+'));
}

#[test]
fn md5_hex_of_hello_is_the_known_digest() {
    assert_eq!(md5_hex("hello"), "5d41402abc4b2a76b9719d911017c592");
    assert_eq!(md5_hex(""), "d41d8cd98f00b204e9800998ecf8427e");
}

#[test]
fn aes_ecb_encrypt_gives_the_known_ciphertext() {
    let encrypted = aes_ecb_encrypt(b"hello world! test data 123", AES_KEY);
    assert_eq!(hex_lower(&encrypted), "24bd758b4169be33f5a2b89c082a44a8eddb5465e5d7091a7b4586d8025dd822");
}

#[test]
fn aes_ecb_pads_a_whole_block_to_one_more_block() {
    let data = [7u8; 16];
    let encrypted = aes_ecb_encrypt(&data, AES_KEY);
    assert_eq!(encrypted.len(), 32);
    assert_eq!(aes_ecb_decrypt(AES_KEY, &encrypted), data.to_vec());
    let empty = aes_ecb_encrypt(&[], AES_KEY);
    assert_eq!(empty.len(), 16);
    assert_eq!(aes_ecb_decrypt(AES_KEY, &empty), Vec::<u8>::new());
}

#[test]
fn aes_ecb_decrypt_of_nothing_is_nothing() {
    assert_eq!(aes_ecb_decrypt(AES_KEY, &[]), Vec::<u8>::new());
}

#[test]
fn netease_encrypt_id_gives_the_known_text() {
    assert_eq!(netease_encrypt_id("12345"), "SOJgz_ObU1tgyRJptBgDTA==");
    assert_eq!(netease_encrypt_id("12345").len(), 24);
}

#[test]
fn encrypt_params_gives_the_known_text() {
    let url = "https://interface3.music.163.com/eapi/song/enhance/player/url/v1";
    let payload = "{\"ids\":[1],\"level\":\"standard\"}";
    assert_eq!(
        encrypt_params(url, &doc(payload)),
        "fa90b329e9614f79e79598f37dc2edb487f00d1bc4c9b24cd57e6c318b9073569338432cd7d98d1a3626e997a2c5312171f9fa98ff5799fa3c4c6026223e0fa2e8cb233cde423d4d1e45bfdcf8c9567781395f0a7debb0596a5d603295e38feba2817de729e7f1b6e7218187e673d514d0f24ba5cc3a6ac270c31491ea82be4b"
    );
}

#[test]
fn encrypt_params_is_hex_of_whole_blocks() {
    let out = encrypt_params("http://interface3.music.163.com/eapi/login/qrcode/unikey", &doc("{}"));
    assert_eq!(out.len() % 32, 0);
    assert!(out.chars().all(|c| c.is_ascii_hexdigit() && !c.is_ascii_uppercase()));
}

fn hex_bytes(text: &str) -> Vec<u8> {
    (0..text.len())
        .step_by(2)
        .map(|i| u8::from_str_radix(&text[i..i + 2], 16).unwrap())
        .collect()
}

#[test]
fn encrypt_params_decrypts_to_the_signed_message() {
    let url = "https://interface3.music.163.com/eapi/login/qrcode/unikey";
    let payload = "{\"type\":1}";
    let cipher = hex_bytes(&encrypt_params(url, &doc(payload)));
    let plain = aes_ecb_decrypt(AES_KEY, &cipher);
    let path = "/api/login/qrcode/unikey";
    let digest = md5_hex(&format!("nobody{}use{}md5forencrypt", path, payload));
    let message = format!("{}-36cd479b6b5-{}-36cd479b6b5-{}", path, payload, digest);
    assert_eq!(plain, message.into_bytes());
}
