use base64::Engine;
use netease_toolkit::crypto::aes_ecb_encrypt;
use netease_toolkit::json::JsonValue;
use netease_toolkit::ncm::{
    build_key_box, cover_file_ext, decrypt_ncm_audio, decrypt_ncm_data, decrypt_result, detect_audio_format,
    decrypted_metadata, parse_ncm_metadata, parse_ncm_metadata_text, read_ncm_body, read_ncm_key,
    try_decrypt_ncm_data,
};

const CORE_KEY: &[u8; 16] = b"hzHRAmso5kInbaxW";
const META_KEY: &[u8; 16] = b"#14jkbf!\\]0U<'(.";

fn to_json(v: &serde_json::Value) -> JsonValue {
    match v {
        serde_json::Value::Null => JsonValue::Null,
        serde_json::Value::Bool(b) => JsonValue::Bool(*b),
        serde_json::Value::Number(n) => JsonValue::Number(n.as_i64()),
        serde_json::Value::String(s) => JsonValue::String(s.clone()),
        serde_json::Value::Array(a) => JsonValue::Array(a.iter().map(to_json).collect()),
        serde_json::Value::Object(m) => {
            JsonValue::Object(m.iter().map(|(k, v)| (k.clone(), to_json(v))).collect())
        }
    }
}

/// Builds an NCM file around `audio`, with the given stream key, metadata
/// JSON text and cover bytes.
fn build_ncm(rc4_key: &[u8], meta_json: Option<&str>, cover: &[u8], audio: &[u8]) -> Vec<u8> {
    let mut out = Vec::new();
    out.extend_from_slice(b"CTENFDAM");
    out.extend_from_slice(&[1, 0]);
    let mut plain_key = b"neteasecloudmusic".to_vec();
    plain_key.extend_from_slice(rc4_key);
    let key_block: Vec<u8> = aes_ecb_encrypt(&plain_key, CORE_KEY).iter().map(|b| b ^ 0x64).collect();
    out.extend_from_slice(&(key_block.len() as u32).to_le_bytes());
    out.extend_from_slice(&key_block);
    match meta_json {
        Some(j) => {
            let mut plain = b"music:".to_vec();
            plain.extend_from_slice(j.as_bytes());
            let enc = aes_ecb_encrypt(&plain, META_KEY);
            let b64 = base64::engine::general_purpose::STANDARD.encode(enc);
            let mut text = b"163 key(Don't modify):".to_vec();
            text.extend_from_slice(b64.as_bytes());
            let block: Vec<u8> = text.iter().map(|b| b ^ 0x63).collect();
            out.extend_from_slice(&(block.len() as u32).to_le_bytes());
            out.extend_from_slice(&block);
        }
        None => out.extend_from_slice(&0u32.to_le_bytes()),
    }
    out.extend_from_slice(&[0u8; 5]);
    out.extend_from_slice(&((cover.len() + 4) as u32).to_le_bytes());
    out.extend_from_slice(&(cover.len() as u32).to_le_bytes());
    out.extend_from_slice(cover);
    let key_box = build_key_box(rc4_key);
    out.extend_from_slice(&decrypt_ncm_audio(&key_box, audio));
    out
}

#[test]
fn key_box_is_a_permutation() {
    for key in [&b"a"[..], &b"1234567890"[..], &[0u8, 255, 17][..]] {
        let kb = build_key_box(key);
        let mut seen = [false; 256];
        for &b in kb.iter() {
            assert!(!seen[b as usize]);
            seen[b as usize] = true;
        }
    }
}

#[test]
fn audio_cipher_undoes_itself() {
    let kb = build_key_box(b"some key bytes");
    let data: Vec<u8> = (0..1000u32).map(|i| (i * 7 % 256) as u8).collect();
    let once = decrypt_ncm_audio(&kb, &data);
    assert_ne!(once, data);
    assert_eq!(decrypt_ncm_audio(&kb, &once), data);
}

#[test]
fn audio_format_is_sniffed_from_the_id3_tag() {
    assert_eq!(detect_audio_format(b"ID3\x04rest"), "mp3");
    assert_eq!(detect_audio_format(b"ID3"), "mp3");
    assert_eq!(detect_audio_format(b"ID"), "flac");
    assert_eq!(detect_audio_format(b"fLaC"), "flac");
}

#[test]
fn a_complete_file_decrypts() {
    let json = r#"{"musicName":"Song","artist":[["Singer",1],["Other",2]],"album":"Alb","albumPic":"http://x/p.jpg","format":"mp3","duration":1000,"bitrate":320000}"#;
    let audio = b"ID3\x03\x00hello audio bytes".to_vec();
    let file = build_ncm(b"0123456789abcdefghijklmnop", Some(json), b"COVER", &audio);
    let out = try_decrypt_ncm_data(&file).expect("handled").expect("decrypts");
    assert_eq!(out.audio, audio);
    assert_eq!(out.format, "mp3");
    assert!(out.has_cover);
    assert_eq!(out.cover, b"COVER".to_vec());
    assert_eq!(out.metadata_json.as_deref(), Some(json));

    let value = to_json(&serde_json::from_str::<serde_json::Value>(json).unwrap());
    let meta = parse_ncm_metadata(Some(&value));
    assert_eq!(meta.name, "Song");
    assert_eq!(meta.artist, "Singer / Other");
    assert_eq!(meta.album, "Alb");
    assert_eq!(meta.album_pic_url, "http://x/p.jpg");
    assert_eq!(meta.format, "mp3");
    assert_eq!(meta.duration, 1000);
    assert_eq!(meta.bitrate, 320000);

    let result = decrypt_result("/out/song.mp3".to_string(), &out, meta);
    assert_eq!(result.file_path, "/out/song.mp3");
    assert_eq!(result.format, "mp3");
    assert_eq!(result.artists, "Singer / Other");
    assert!(result.has_cover_embedded);
}

#[test]
fn a_file_without_metadata_or_cover_decrypts() {
    let audio = b"fLaC\x00\x00\x00\x22".to_vec();
    let file = build_ncm(b"k", None, b"", &audio);
    let out = decrypt_ncm_data(&file).expect("decrypts");
    assert_eq!(out.audio, audio);
    assert_eq!(out.format, "flac");
    assert!(!out.has_cover);
    assert!(out.cover.is_empty());
    assert!(out.metadata_json.is_none());
}

#[test]
fn metadata_that_is_not_json_leaves_the_fields_empty() {
    let meta = parse_ncm_metadata(None);
    assert_eq!(meta.name, "");
    assert_eq!(meta.artist, "");
    assert_eq!(meta.duration, 0);
    let raw: serde_json::Value = serde_json::from_str(r#"{"musicName": 3, "artist": [[1], [], "x", ["B"]]}"#).unwrap();
    let value = to_json(&raw);
    let meta = parse_ncm_metadata(Some(&value));
    assert_eq!(meta.name, "");
    assert_eq!(meta.artist, "B");
}

#[test]
fn read_errors_name_the_read_that_failed() {
    assert_eq!(try_decrypt_ncm_data(b"CTE").unwrap().err().unwrap(), "Failed to read magic");
    assert_eq!(
        try_decrypt_ncm_data(b"XTENFDAM").unwrap().err().unwrap(),
        "Not a valid NCM file (invalid magic 1)"
    );
    assert_eq!(try_decrypt_ncm_data(b"CTENFD").unwrap().err().unwrap(), "Failed to read magic 2");
    assert_eq!(
        try_decrypt_ncm_data(b"CTENXDAM").unwrap().err().unwrap(),
        "Not a valid NCM file (invalid magic 2)"
    );
    assert_eq!(try_decrypt_ncm_data(b"CTENFDAM\x01\x00\x10").unwrap().err().unwrap(), "Read key length failed");
    assert_eq!(
        try_decrypt_ncm_data(b"CTENFDAM\x01\x00\x10\x00\x00\x00abc").unwrap().err().unwrap(),
        "Read key data failed"
    );
    let full = build_ncm(b"key", Some("{}"), b"", b"ID3");
    let key_block_end = 14 + 32;
    assert_eq!(
        try_decrypt_ncm_data(&full[..key_block_end]).unwrap().err().unwrap(),
        "Read metadata length failed"
    );
    assert_eq!(
        try_decrypt_ncm_data(&full[..key_block_end + 10]).unwrap().err().unwrap(),
        "Read metadata failed"
    );
}

#[test]
fn reading_the_key_block_xors_it() {
    let mut file = b"CTENFDAM\x01\x00".to_vec();
    file.extend_from_slice(&2u32.to_le_bytes());
    file.extend_from_slice(&[0x64, 0x65]);
    assert_eq!(read_ncm_key(&file).unwrap(), vec![0, 1]);
    file.extend_from_slice(&0u32.to_le_bytes());
    let body = read_ncm_body(&file).unwrap();
    assert!(body.metadata.is_empty());
    assert!(!body.has_cover);
    assert_eq!(body.audio_start, file.len());
}

#[test]
fn a_key_block_of_the_wrong_length_is_malformed() {
    let mut file = b"CTENFDAM\x01\x00".to_vec();
    file.extend_from_slice(&5u32.to_le_bytes());
    file.extend_from_slice(&[1, 2, 3, 4, 5]);
    assert!(try_decrypt_ncm_data(&file).is_none());
    let mut file = b"CTENFDAM\x01\x00".to_vec();
    file.extend_from_slice(&0u32.to_le_bytes());
    assert!(try_decrypt_ncm_data(&file).is_none());
}

#[test]
fn bad_base64_metadata_is_reported() {
    let mut file = b"CTENFDAM\x01\x00".to_vec();
    let mut plain_key = b"neteasecloudmusic".to_vec();
    plain_key.extend_from_slice(b"key");
    let key_block: Vec<u8> = aes_ecb_encrypt(&plain_key, CORE_KEY).iter().map(|b| b ^ 0x64).collect();
    file.extend_from_slice(&(key_block.len() as u32).to_le_bytes());
    file.extend_from_slice(&key_block);
    let text = b"163 key(Don't modify):!!!!";
    let block: Vec<u8> = text.iter().map(|b| b ^ 0x63).collect();
    file.extend_from_slice(&(block.len() as u32).to_le_bytes());
    file.extend_from_slice(&block);
    let err = try_decrypt_ncm_data(&file).unwrap().err().unwrap();
    let engine_error = base64::engine::general_purpose::STANDARD.decode("!!!!").unwrap_err().to_string();
    assert_eq!(err, format!("Base64 decode metadata failed: {}", engine_error));
}

#[test]
fn the_embedded_cover_is_handed_back() {
    let png = [0x89u8, 0x50, 0x4e, 0x47, 0x0d, 0x0a, 0x1a, 0x0a, 0, 0, 0, 13];
    let file = build_ncm(b"cover key", None, &png, b"ID3 audio");
    let out = decrypt_ncm_data(&file).expect("decrypts");
    assert_eq!(out.cover, png.to_vec());
    assert_eq!(out.audio, b"ID3 audio".to_vec());
    assert_eq!(cover_file_ext(&out.cover), "png");
    assert_eq!(cover_file_ext(b"\xff\xd8\xff\xe0JFIF"), "jpg");
    assert_eq!(cover_file_ext(b""), "jpg");
}

#[test]
fn a_cover_cut_short_by_the_end_of_the_file_keeps_what_is_there() {
    let mut file = build_ncm(b"k", None, b"", b"");
    let n = file.len();
    file[n - 4..].copy_from_slice(&100u32.to_le_bytes());
    file.extend_from_slice(b"abc");
    let body = read_ncm_body(&file).unwrap();
    assert!(body.has_cover);
    assert_eq!(body.cover, b"abc".to_vec());
    assert_eq!(body.audio_start, file.len());
}

#[test]
fn the_key_box_depends_on_the_key_bytes_it_reads() {
    let key = b"abc".to_vec();
    assert_eq!(build_key_box(&key), build_key_box(&key.repeat(5)));
    let long: Vec<u8> = (0..300u32).map(|i| (i * 31 % 256) as u8).collect();
    assert_eq!(build_key_box(&long), build_key_box(&long[..256]));
    assert_ne!(build_key_box(b"abc"), build_key_box(b"abd"));
}

#[test]
fn metadata_text_is_parsed_and_read() {
    let meta = parse_ncm_metadata_text(r#"{"musicName":"S","artist":[["A",1]],"duration":5}"#);
    assert_eq!(meta.name, "S");
    assert_eq!(meta.artist, "A");
    assert_eq!(meta.duration, 5);
    let empty = parse_ncm_metadata_text("not json");
    assert_eq!(empty.name, "");
    assert_eq!(empty.artist, "");

    let json = r#"{"musicName":"Song","album":"Alb"}"#;
    let file = build_ncm(b"meta key", Some(json), b"", b"ID3");
    let out = decrypt_ncm_data(&file).expect("decrypts");
    let meta = decrypted_metadata(&out);
    assert_eq!(meta.name, "Song");
    assert_eq!(meta.album, "Alb");
    let bare = decrypt_ncm_data(&build_ncm(b"k", None, b"", b"x")).expect("decrypts");
    assert_eq!(decrypted_metadata(&bare).name, "");
}
