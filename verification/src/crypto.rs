use vstd::prelude::*;

use aes::cipher::generic_array::GenericArray;
use aes::cipher::{BlockDecrypt, BlockEncrypt, KeyInit};
use md5::Digest;
use base64::Engine;

use vstd::string::StringExecFns;
use crate::json::{json_text, spec_json_text, JsonValue};
use crate::text::{hex_lower, replace_all, replace_char, spec_hex_lower, spec_replace, spec_replace_char};

verus! {

// ---------------------------------------------------------------------------
// AES-128 block cipher (outside crate `aes`)
// ---------------------------------------------------------------------------

/// The AES-128 encryption of one 16-byte block under a 16-byte key.
pub uninterp spec fn spec_aes128_encrypt_block(key: Seq<u8>, block: Seq<u8>) -> Seq<u8>;

/// The AES-128 decryption of one 16-byte block under a 16-byte key.
pub uninterp spec fn spec_aes128_decrypt_block(key: Seq<u8>, block: Seq<u8>) -> Seq<u8>;

/// Encrypts one block with `aes::Aes128` (`KeyInit::new` then
/// `BlockEncrypt::encrypt_block`). Claimed: the result is the named AES-128
/// encryption of the block, and decrypting it under the same key gives the
/// block back (AES is a permutation of blocks for each key).
#[verifier::external_body]
fn aes128_encrypt_block(key: &[u8], block: &[u8]) -> (res: [u8; 16])
    requires
        key@.len() == 16,
        block@.len() == 16,
    ensures
        res@ == spec_aes128_encrypt_block(key@, block@),
        spec_aes128_decrypt_block(key@, res@) == block@,
{
    let cipher = aes::Aes128::new(GenericArray::from_slice(key));
    let mut b = GenericArray::clone_from_slice(block);
    cipher.encrypt_block(&mut b);
    let mut out = [0u8; 16];
    out.copy_from_slice(&b);
    out
}

/// Decrypts one block with `aes::Aes128` (`KeyInit::new` then
/// `BlockDecrypt::decrypt_block`). Claimed: the result is the named AES-128
/// decryption of the block.
#[verifier::external_body]
fn aes128_decrypt_block(key: &[u8], block: &[u8]) -> (res: [u8; 16])
    requires
        key@.len() == 16,
        block@.len() == 16,
    ensures
        res@ == spec_aes128_decrypt_block(key@, block@),
{
    let cipher = aes::Aes128::new(GenericArray::from_slice(key));
    let mut b = GenericArray::clone_from_slice(block);
    cipher.decrypt_block(&mut b);
    let mut out = [0u8; 16];
    out.copy_from_slice(&b);
    out
}

// ---------------------------------------------------------------------------
// ECB mode with PKCS#7 padding
// ---------------------------------------------------------------------------

/// Number of padding bytes PKCS#7 adds to a message of `len` bytes: 1 to 16.
pub open spec fn pkcs7_pad_len(len: nat) -> nat {
    (16 - len % 16) as nat
}

/// PKCS#7 padding to a multiple of 16 bytes: `n` bytes of value `n`.
pub open spec fn pkcs7_pad(data: Seq<u8>) -> Seq<u8> {
    let n = pkcs7_pad_len(data.len());
    data + Seq::new(n, |i: int| n as u8)
}

/// Removal of PKCS#7 padding as the library does it: the last byte `n`
/// is dropped together with the `n - 1` bytes before it when `1 <= n <= 16`;
/// otherwise the data is left as it is.
pub open spec fn pkcs7_unpad(buf: Seq<u8>) -> Seq<u8> {
    let n: int = if buf.len() == 0 { 0 } else { buf.last() as int };
    if 0 < n && n <= 16 && n <= buf.len() {
        buf.take(buf.len() - n)
    } else {
        buf
    }
}

/// The `b`-th 16-byte block of `data`.
pub open spec fn block_at(data: Seq<u8>, b: int) -> Seq<u8> {
    data.subrange(16 * b, 16 * b + 16)
}

/// Blockwise AES-128 encryption of data whose length is a multiple of 16.
pub open spec fn ecb_encrypt_blocks(key: Seq<u8>, data: Seq<u8>) -> Seq<u8>
    decreases data.len(),
{
    if data.len() < 16 {
        Seq::empty()
    } else {
        ecb_encrypt_blocks(key, data.take(data.len() - 16))
            + spec_aes128_encrypt_block(key, data.skip(data.len() - 16))
    }
}

/// Blockwise AES-128 decryption of data whose length is a multiple of 16.
pub open spec fn ecb_decrypt_blocks(key: Seq<u8>, data: Seq<u8>) -> Seq<u8>
    decreases data.len(),
{
    if data.len() < 16 {
        Seq::empty()
    } else {
        ecb_decrypt_blocks(key, data.take(data.len() - 16))
            + spec_aes128_decrypt_block(key, data.skip(data.len() - 16))
    }
}

/// AES-128-ECB encryption with PKCS#7 padding.
pub open spec fn spec_aes_ecb_encrypt(key: Seq<u8>, data: Seq<u8>) -> Seq<u8> {
    ecb_encrypt_blocks(key, pkcs7_pad(data))
}

/// AES-128-ECB decryption followed by removal of PKCS#7 padding.
pub open spec fn spec_aes_ecb_decrypt(key: Seq<u8>, data: Seq<u8>) -> Seq<u8> {
    pkcs7_unpad(ecb_decrypt_blocks(key, data))
}

/// Removing the padding that PKCS#7 added gives the message back.
pub proof fn lemma_pkcs7_unpad_pad(data: Seq<u8>)
    ensures
        pkcs7_unpad(pkcs7_pad(data)) == data,
{
    let p = pkcs7_pad(data);
    let n = pkcs7_pad_len(data.len());
    assert(p.last() == n as u8);
    assert(p.take(p.len() - n) =~= data);
}

/// The padded message is a whole number of blocks, one block longer at most.
pub proof fn lemma_pkcs7_pad_len(data: Seq<u8>)
    ensures
        pkcs7_pad(data).len() % 16 == 0,
        pkcs7_pad(data).len() == (data.len() / 16 + 1) * 16,
{
}

/// Blockwise decryption undoes blockwise encryption, given that it does so
/// for each block of the data.
proof fn lemma_ecb_blocks_roundtrip(key: Seq<u8>, data: Seq<u8>)
    requires
        data.len() % 16 == 0,
        forall|b: int| 0 <= b < data.len() / 16 ==>
            (#[trigger] spec_aes128_encrypt_block(key, block_at(data, b))).len() == 16
            && spec_aes128_decrypt_block(key, spec_aes128_encrypt_block(key, block_at(data, b)))
                == block_at(data, b),
    ensures
        ecb_encrypt_blocks(key, data).len() == data.len(),
        ecb_decrypt_blocks(key, ecb_encrypt_blocks(key, data)) == data,
    decreases data.len(),
{
    if data.len() >= 16 {
        let n = data.len() / 16;
        let front = data.take(data.len() - 16);
        let last = data.skip(data.len() - 16);
        assert(last =~= block_at(data, n - 1));
        assert forall|b: int| 0 <= b < front.len() / 16 implies
            (#[trigger] spec_aes128_encrypt_block(key, block_at(front, b))).len() == 16
            && spec_aes128_decrypt_block(key, spec_aes128_encrypt_block(key, block_at(front, b)))
                == block_at(front, b) by {
            assert(block_at(front, b) =~= block_at(data, b));
        }
        lemma_ecb_blocks_roundtrip(key, front);
        let ef = ecb_encrypt_blocks(key, front);
        let el = spec_aes128_encrypt_block(key, last);
        let e = ecb_encrypt_blocks(key, data);
        assert(e == ef + el);
        assert(e.take(e.len() - 16) =~= ef);
        assert(e.skip(e.len() - 16) =~= el);
        assert(ecb_decrypt_blocks(key, e) =~= front + last);
        assert(front + last =~= data);
    }
}

proof fn lemma_block_in_range(len: int, b: int)
    requires
        0 <= b < len / 16,
        len >= 0,
    ensures
        16 * b + 16 <= len,
{
    vstd::arithmetic::div_mod::lemma_fundamental_div_mod(len, 16);
}

/// Encrypts `data` with AES-128 in ECB mode under `key`, after PKCS#7 padding.
pub fn aes_ecb_encrypt(data: &[u8], key: &[u8; 16]) -> (res: Vec<u8>)
    ensures
        res@ == spec_aes_ecb_encrypt(key@, data@),
        res@.len() == (data@.len() / 16 + 1) * 16,
        spec_aes_ecb_decrypt(key@, res@) == data@,
{
    let ghost k = key@;
    let key_slice: &[u8] = key.as_slice();
    let block_size: usize = 16;
    let pad_len: usize = block_size - (data.len() % block_size);
    let mut buf: Vec<u8> = Vec::new();
    let mut i: usize = 0;
    while i < data.len()
        invariant
            i <= data@.len(),
            buf@ == data@.take(i as int),
        decreases data@.len() - i,
    {
        buf.push(data[i]);
        assert(data@.take(i as int).push(data@[i as int]) =~= data@.take(i + 1));
        i = i + 1;
    }
    let mut j: usize = 0;
    while j < pad_len
        invariant
            j <= pad_len,
            pad_len == pkcs7_pad_len(data@.len()),
            buf@ == data@ + Seq::new(j as nat, |t: int| pad_len as u8),
        decreases pad_len - j,
    {
        buf.push(pad_len as u8);
        assert(data@ + Seq::new(j as nat, |t: int| pad_len as u8) + seq![pad_len as u8]
            =~= data@ + Seq::new((j + 1) as nat, |t: int| pad_len as u8));
        j = j + 1;
    }
    assert(data@.take(data@.len() as int) =~= data@);
    assert(buf@ == pkcs7_pad(data@));
    proof {
        lemma_pkcs7_pad_len(data@);
    }
    let nblocks: usize = buf.len() / 16;
    let mut out: Vec<u8> = Vec::new();
    let mut b: usize = 0;
    while b < nblocks
        invariant
            b <= nblocks,
            nblocks == buf@.len() / 16,
            buf@.len() % 16 == 0,
            key_slice@ == k,
            k.len() == 16,
            out@ == ecb_encrypt_blocks(k, buf@.take(16 * b)),
            forall|c: int| 0 <= c < b ==>
                (#[trigger] spec_aes128_encrypt_block(k, block_at(buf@, c))).len() == 16
                && spec_aes128_decrypt_block(k, spec_aes128_encrypt_block(k, block_at(buf@, c)))
                    == block_at(buf@, c),
        decreases nblocks - b,
    {
        proof {
            lemma_block_in_range(buf@.len() as int, b as int);
        }
        assert(16 * b + 16 <= buf@.len());
        let blen = buf.len();
        assert(16 * b + 16 <= blen);
        let start: usize = 16 * b;
        let end: usize = start + 16;
        let blk = &buf.as_slice()[start..end];
        assert(blk@ =~= block_at(buf@, b as int));
        let enc = aes128_encrypt_block(key_slice, blk);
        let mut t: usize = 0;
        let ghost before = out@;
        while t < 16
            invariant
                t <= 16,
                out@ == before + enc@.take(t as int),
            decreases 16 - t,
        {
            out.push(enc[t]);
            assert(before + enc@.take(t as int) + seq![enc@[t as int]] =~= before + enc@.take(t + 1));
            t = t + 1;
        }
        proof {
            let pre = buf@.take(16 * (b + 1));
            assert(pre.take(pre.len() - 16) =~= buf@.take(16 * b));
            assert(pre.skip(pre.len() - 16) =~= block_at(buf@, b as int));
            assert(enc@.take(16) =~= enc@);
        }
        b = b + 1;
    }
    proof {
        assert(buf@.take(16 * nblocks) =~= buf@);
        assert forall|c: int| 0 <= c < buf@.len() / 16 implies
            (#[trigger] spec_aes128_encrypt_block(k, block_at(buf@, c))).len() == 16
            && spec_aes128_decrypt_block(k, spec_aes128_encrypt_block(k, block_at(buf@, c)))
                == block_at(buf@, c) by {}
        lemma_ecb_blocks_roundtrip(k, buf@);
        lemma_pkcs7_unpad_pad(data@);
    }
    out
}

/// Decrypts `data` with AES-128 in ECB mode under `key` and removes the
/// PKCS#7 padding: when the last byte `n` of the decrypted data lies in
/// `1..=16`, the last `n` bytes are dropped.
pub fn aes_ecb_decrypt(key: &[u8], data: &[u8]) -> (res: Vec<u8>)
    requires
        key@.len() == 16,
        data@.len() % 16 == 0,
    ensures
        res@ == spec_aes_ecb_decrypt(key@, data@),
{
    let nblocks: usize = data.len() / 16;
    let mut buf: Vec<u8> = Vec::new();
    let mut b: usize = 0;
    while b < nblocks
        invariant
            b <= nblocks,
            nblocks == data@.len() / 16,
            data@.len() % 16 == 0,
            key@.len() == 16,
            buf@ == ecb_decrypt_blocks(key@, data@.take(16 * b)),
            buf@.len() == 16 * b,
        decreases nblocks - b,
    {
        proof {
            lemma_block_in_range(data@.len() as int, b as int);
        }
        let dlen = data.len();
        assert(16 * b + 16 <= dlen);
        let start: usize = 16 * b;
        let end: usize = start + 16;
        let blk = &data[start..end];
        let dec = aes128_decrypt_block(key, blk);
        let mut t: usize = 0;
        let ghost before = buf@;
        while t < 16
            invariant
                t <= 16,
                buf@ == before + dec@.take(t as int),
            decreases 16 - t,
        {
            buf.push(dec[t]);
            assert(before + dec@.take(t as int) + seq![dec@[t as int]] =~= before + dec@.take(t + 1));
            t = t + 1;
        }
        proof {
            let pre = data@.take(16 * (b + 1));
            assert(pre.take(pre.len() - 16) =~= data@.take(16 * b));
            assert(pre.skip(pre.len() - 16) =~= blk@);
            assert(dec@.take(16) =~= dec@);
        }
        b = b + 1;
    }
    assert(data@.take(16 * nblocks) =~= data@);
    let len = buf.len();
    let pad_len: usize = if len == 0 { 0 } else { buf[len - 1] as usize };
    if pad_len > 0 && pad_len <= 16 {
        buf.truncate(len - pad_len);
        assert(buf@ =~= ecb_decrypt_blocks(key@, data@).take(len - pad_len));
    }
    buf
}


// ---------------------------------------------------------------------------
// MD5 (outside crate `md-5`)
// ---------------------------------------------------------------------------

/// The MD5 digest of a byte string.
pub uninterp spec fn spec_md5(data: Seq<u8>) -> Seq<u8>;

/// MD5 digest with `md5::Md5::digest`. Claimed: the 16 bytes returned are
/// the named digest of the input.
#[verifier::external_body]
fn md5_digest(data: &[u8]) -> (res: [u8; 16])
    ensures
        res@ == spec_md5(data@),
{
    let d = md5::Md5::digest(data);
    let mut out = [0u8; 16];
    out.copy_from_slice(&d);
    out
}

/// Lower-case hexadecimal MD5 digest of the UTF-8 bytes of `text`.
pub open spec fn spec_md5_hex(text: Seq<char>) -> Seq<char> {
    spec_hex_lower(spec_md5(vstd::utf8::encode_utf8(text)))
}

/// The MD5 digest of `text` (its UTF-8 bytes) as 32 lower-case hex digits.
pub fn md5_hex(text: &str) -> (res: String)
    ensures
        res@ == spec_md5_hex(text@),
        res@.len() == 32,
{
    let bytes = text.as_bytes();
    let digest = md5_digest(bytes);
    hex_lower(digest.as_slice())
}

// ---------------------------------------------------------------------------
// Base64 (outside crate `base64`)
// ---------------------------------------------------------------------------

/// The character of the standard Base64 alphabet for a value below 64:
/// `A`-`Z`, `a`-`z`, `0`-`9`, `+`, `/`.
pub open spec fn base64_char(v: int) -> char {
    if v < 26 {
        (65 + v) as char
    } else if v < 52 {
        (71 + v) as char
    } else if v < 62 {
        (v - 4) as char
    } else if v == 62 {
        '+'
    } else {
        '/'
    }
}

/// The standard (RFC 4648) Base64 text of a byte string: each group of three
/// bytes becomes four characters of six bits each; a last group of one or
/// two bytes gives two or three characters, padded with `=` to four.
pub open spec fn spec_base64_encode(data: Seq<u8>) -> Seq<char>
    decreases data.len(),
{
    if data.len() == 0 {
        Seq::empty()
    } else if data.len() == 1 {
        seq![base64_char((data[0] / 4) as int), base64_char((data[0] % 4) * 16), '=', '=']
    } else if data.len() == 2 {
        seq![
            base64_char((data[0] / 4) as int),
            base64_char((data[0] % 4) * 16 + data[1] / 16),
            base64_char((data[1] % 16) * 4),
            '=',
        ]
    } else {
        seq![
            base64_char((data[0] / 4) as int),
            base64_char((data[0] % 4) * 16 + data[1] / 16),
            base64_char((data[1] % 16) * 4 + data[2] / 64),
            base64_char((data[2] % 64) as int),
        ] + spec_base64_encode(data.skip(3))
    }
}

/// Base64 text has four characters for every three bytes or part of three.
pub proof fn lemma_base64_len(data: Seq<u8>)
    ensures
        spec_base64_encode(data).len() == 4 * ((data.len() + 2) / 3),
    decreases data.len(),
{
    if data.len() >= 3 {
        lemma_base64_len(data.skip(3));
    }
}

/// The bytes that standard Base64 text decodes to, or, when the standard
/// engine rejects the text, the message of its error.
pub uninterp spec fn spec_base64_decode(text: Seq<char>) -> Result<Seq<u8>, Seq<char>>;

/// Encodes with `base64::engine::general_purpose::STANDARD.encode`, the
/// padded standard alphabet of RFC 4648. Claimed: the result is the Base64
/// text that `spec_base64_encode` describes.
#[verifier::external_body]
pub(crate) fn base64_encode(data: &[u8]) -> (res: String)
    ensures
        res@ == spec_base64_encode(data@),
{
    base64::engine::general_purpose::STANDARD.encode(data)
}

/// Decodes with `base64::engine::general_purpose::STANDARD.decode`. Claimed:
/// the result is the named decoding: its bytes, or the text of the engine's
/// `DecodeError`.
#[verifier::external_body]
pub(crate) fn base64_decode(text: &str) -> (res: Result<Vec<u8>, String>)
    ensures
        match spec_base64_decode(text@) {
            Ok(b) => res matches Ok(v) && v@ == b,
            Err(m) => res matches Err(e) && e@ == m,
        },
{
    base64::engine::general_purpose::STANDARD.decode(text).map_err(|e| e.to_string())
}

// ---------------------------------------------------------------------------
// Netease request and image-id encryption
// ---------------------------------------------------------------------------

/// The key of the eapi parameter encryption, `e82ckenh8dichen8`.
pub open spec fn eapi_key() -> Seq<u8> {
    seq![101u8, 56, 50, 99, 107, 101, 110, 104, 56, 100, 105, 99, 104, 101, 110, 56]
}

fn eapi_key_bytes() -> (k: [u8; 16])
    ensures
        k@ == eapi_key(),
{
    let k: [u8; 16] = [101, 56, 50, 99, 107, 101, 110, 104, 56, 100, 105, 99, 104, 101, 110, 56];
    assert(k@ =~= eapi_key());
    k
}

/// The eapi path of a request URL: the `interface3` eapi prefix, over https
/// and then over http, replaced by `/api/`.
pub open spec fn spec_eapi_path(url: Seq<char>) -> Seq<char> {
    spec_replace(
        spec_replace(url, "https://interface3.music.163.com/eapi/"@, "/api/"@),
        "http://interface3.music.163.com/eapi/"@,
        "/api/"@,
    )
}

/// The text that is signed and encrypted for an eapi request.
pub open spec fn spec_eapi_message(path: Seq<char>, payload: Seq<char>) -> Seq<char> {
    let digest = spec_md5_hex("nobody"@ + path + "use"@ + payload + "md5forencrypt"@);
    path + "-36cd479b6b5-"@ + payload + "-36cd479b6b5-"@ + digest
}

/// The `params` form value of an eapi request.
pub open spec fn spec_encrypt_params(url: Seq<char>, payload: Seq<char>) -> Seq<char> {
    spec_hex_lower(
        spec_aes_ecb_encrypt(
            eapi_key(),
            vstd::utf8::encode_utf8(spec_eapi_message(spec_eapi_path(url), payload)),
        ),
    )
}

/// Encrypts the parameters of a Netease eapi request whose body is the JSON
/// text `payload_json`.
fn encrypt_params_text(url: &str, payload_json: &str) -> (res: String)
    ensures
        res@ == spec_encrypt_params(url@, payload_json@),
        exists|c: Seq<u8>| #[trigger] spec_hex_lower(c) == res@
            && spec_aes_ecb_decrypt(eapi_key(), c)
                == vstd::utf8::encode_utf8(spec_eapi_message(spec_eapi_path(url@), payload_json@)),
{
    proof {
        reveal_strlit("https://interface3.music.163.com/eapi/");
        reveal_strlit("http://interface3.music.163.com/eapi/");
    }
    let step = replace_all(url, "https://interface3.music.163.com/eapi/", "/api/");
    let url_path = replace_all(step.as_str(), "http://interface3.music.163.com/eapi/", "/api/");
    let mut signed = String::from_str("nobody");
    signed.append(url_path.as_str());
    signed.append("use");
    signed.append(payload_json);
    signed.append("md5forencrypt");
    let digest = md5_hex(signed.as_str());
    let mut params = String::from_str(url_path.as_str());
    params.append("-36cd479b6b5-");
    params.append(payload_json);
    params.append("-36cd479b6b5-");
    params.append(digest.as_str());
    let key = eapi_key_bytes();
    let encrypted = aes_ecb_encrypt(params.as_str().as_bytes(), &key);
    let res = hex_lower(encrypted.as_slice());
    assert(spec_hex_lower(encrypted@) == res@);
    res
}

/// Encrypts the parameters of a Netease eapi request. The body is written as
/// JSON text (see `spec_json_text`); the result is the hex text of the
/// AES-128-ECB encryption, under the eapi key, of
/// `path-36cd479b6b5-payload-36cd479b6b5-md5("nobody{path}use{payload}md5forencrypt")`,
/// where `path` is the URL with its eapi prefix replaced by `/api/` and
/// `payload` is that text. The service can read the request back: the hex
/// text is that of a ciphertext that decrypts, under the eapi key, to the
/// signed message.
pub fn encrypt_params(url: &str, payload: &JsonValue) -> (res: String)
    ensures
        res@ == spec_encrypt_params(url@, spec_json_text(*payload)),
        exists|c: Seq<u8>| #[trigger] spec_hex_lower(c) == res@
            && spec_aes_ecb_decrypt(eapi_key(), c)
                == vstd::utf8::encode_utf8(spec_eapi_message(spec_eapi_path(url@), spec_json_text(*payload))),
{
    let text = json_text(payload);
    encrypt_params_text(url, text.as_str())
}

/// The bytes XOR-ed into an image id before hashing, `3go8&$8*3*3h0k(2)2`.
pub open spec fn image_id_magic() -> Seq<u8> {
    seq![51u8, 103, 111, 56, 38, 36, 56, 42, 51, 42, 51, 104, 48, 107, 40, 50, 41, 50]
}

/// The id bytes XOR-ed, position by position, with the repeated magic bytes.
pub open spec fn spec_image_id_mask(id: Seq<u8>) -> Seq<u8> {
    Seq::new(id.len(), |i: int| id[i] ^ image_id_magic()[i % 18])
}

/// The image-id mask goes through the whole 18-byte magic and then starts
/// over: byte `i` of a masked id is the id byte XOR-ed with magic byte
/// `i mod 18`, so bytes 18 apart are masked with the same magic byte, and
/// the first 18 bytes with 18 magic bytes in order.
pub proof fn lemma_image_id_mask_uses_whole_magic(id: Seq<u8>)
    ensures
        image_id_magic().len() == 18,
        spec_image_id_mask(id).len() == id.len(),
        forall|i: int| 0 <= i < id.len() ==> #[trigger] spec_image_id_mask(id)[i]
            == id[i] ^ image_id_magic()[i % (image_id_magic().len() as int)],
        forall|i: int| 0 <= i < id.len() && i < 18 ==> #[trigger] spec_image_id_mask(id)[i]
            == id[i] ^ image_id_magic()[i],
        forall|i: int| 0 <= i && i + 18 < id.len() ==>
            (spec_image_id_mask(id)[i + 18] ^ id[i + 18]) == (#[trigger] spec_image_id_mask(id)[i] ^ id[i]),
{
    let m = spec_image_id_mask(id);
    assert forall|i: int| 0 <= i && i + 18 < id.len() implies
        (m[i + 18] ^ id[i + 18]) == (#[trigger] m[i] ^ id[i]) by {
        let a = id[i + 18];
        let b = id[i];
        let c = image_id_magic()[(i + 18) % 18];
        assert((i + 18) % 18 == i % 18);
        assert((a ^ c) ^ a == c) by (bit_vector);
        assert((b ^ c) ^ b == c) by (bit_vector);
    }
}

/// The encrypted form of an image id used in Netease image URLs: standard
/// Base64 of the MD5 of the masked id bytes, with `/` turned into `_` and
/// `+` into `-`.
pub open spec fn spec_netease_encrypt_id(id: Seq<char>) -> Seq<char> {
    spec_replace_char(
        spec_replace_char(
            spec_base64_encode(spec_md5(spec_image_id_mask(vstd::utf8::encode_utf8(id)))),
            '/',
            '_',
        ),
        '+',
        '-',
    )
}

/// Encrypts an image id for a Netease image URL. The result is 24
/// characters long and holds no `/` and no `+`.
pub fn netease_encrypt_id(id_str: &str) -> (res: String)
    ensures
        res@ == spec_netease_encrypt_id(id_str@),
        res@.len() == 24,
        forall|i: int| 0 <= i < res@.len() ==> res@[i] != '/' && res@[i] != '+',
{
    let magic: [u8; 18] = [51, 103, 111, 56, 38, 36, 56, 42, 51, 42, 51, 104, 48, 107, 40, 50, 41, 50];
    assert(magic@ =~= image_id_magic());
    let id_bytes = id_str.as_bytes();
    let mut result: Vec<u8> = Vec::new();
    let mut i: usize = 0;
    while i < id_bytes.len()
        invariant
            i <= id_bytes@.len(),
            magic@ == image_id_magic(),
            result@ == spec_image_id_mask(id_bytes@).take(i as int),
        decreases id_bytes@.len() - i,
    {
        result.push(id_bytes[i] ^ magic[i % 18]);
        assert(spec_image_id_mask(id_bytes@).take(i as int).push(id_bytes@[i as int] ^ magic@[(i % 18) as int])
            =~= spec_image_id_mask(id_bytes@).take(i + 1));
        i = i + 1;
    }
    assert(result@ =~= spec_image_id_mask(id_bytes@));
    let hash = md5_digest(result.as_slice());
    let b64 = base64_encode(hash.as_slice());
    proof {
        lemma_base64_len(hash@);
    }
    let step = replace_char(b64.as_str(), '/', '_');
    replace_char(step.as_str(), '+', '-')
}

} // verus!
