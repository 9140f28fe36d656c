use vstd::prelude::*;

use vstd::string::StringExecFns;
use crate::crypto::{aes_ecb_decrypt, base64_decode, spec_aes_ecb_decrypt, spec_base64_decode};
use crate::text::{join, spec_join, spec_utf8_lossy, strings_view, utf8_lossy};
use crate::json::{json_array, json_get, json_i64, json_str, opt_array, opt_i64, opt_str, parse_json, spec_json_parse, str_or_empty, JsonValue};

verus! {

/// The identity table: entry `i` holds `i`.
pub open spec fn identity_box() -> Seq<u8> {
    Seq::new(256, |i: int| i as u8)
}

/// State of the key-scheduling pass after `n` of its 256 steps:
/// the table so far and the last swap index.
pub open spec fn key_box_state(key: Seq<u8>, n: nat) -> (Seq<u8>, u8)
    decreases n,
{
    if n == 0 {
        (identity_box(), 0u8)
    } else {
        let (kb, last) = key_box_state(key, (n - 1) as nat);
        let i = n - 1;
        let c = ((kb[i] + last + key[i % (key.len() as int)]) % 256) as u8;
        (kb.update(i, kb[c as int]).update(c as int, kb[i]), c)
    }
}

/// The key box derived from `key`: the table after all 256 steps.
pub open spec fn spec_key_box(key: Seq<u8>) -> Seq<u8> {
    key_box_state(key, 256).0
}

/// A table of 256 bytes in which no byte value occurs twice, so that
/// every byte value occurs exactly once.
pub open spec fn is_byte_permutation(kb: Seq<u8>) -> bool {
    &&& kb.len() == 256
    &&& forall|i: int, j: int| 0 <= i < 256 && 0 <= j < 256 && i != j ==> kb[i] != kb[j]
}

proof fn lemma_key_box_state_perm(key: Seq<u8>, n: nat)
    requires
        key.len() > 0,
        n <= 256,
    ensures
        is_byte_permutation(key_box_state(key, n).0),
    decreases n,
{
    if n > 0 {
        lemma_key_box_state_perm(key, (n - 1) as nat);
    }
}

/// The key box is a permutation of the 256 byte values, whatever the key.
pub proof fn lemma_key_box_is_permutation(key: Seq<u8>)
    requires
        key.len() > 0,
    ensures
        is_byte_permutation(spec_key_box(key)),
{
    lemma_key_box_state_perm(key, 256);
}

proof fn lemma_key_box_state_agree(k1: Seq<u8>, k2: Seq<u8>, n: nat)
    requires
        k1.len() > 0,
        k2.len() > 0,
        n <= 256,
        forall|i: int| 0 <= i < 256 ==> #[trigger] k1[i % (k1.len() as int)] == k2[i % (k2.len() as int)],
    ensures
        key_box_state(k1, n) == key_box_state(k2, n),
    decreases n,
{
    if n > 0 {
        lemma_key_box_state_agree(k1, k2, (n - 1) as nat);
        let i = n - 1;
        assert(k1[i % (k1.len() as int)] == k2[i % (k2.len() as int)]);
    }
}

/// The key box depends on the key only through the key bytes its 256 steps
/// read, `key[i % key.len()]` for `i < 256`: keys that agree there give the
/// same box.
pub proof fn lemma_key_box_uses_256_key_bytes(k1: Seq<u8>, k2: Seq<u8>)
    requires
        k1.len() > 0,
        k2.len() > 0,
        forall|i: int| 0 <= i < 256 ==> #[trigger] k1[i % (k1.len() as int)] == k2[i % (k2.len() as int)],
    ensures
        spec_key_box(k1) == spec_key_box(k2),
{
    lemma_key_box_state_agree(k1, k2, 256);
}

/// A key repeated `n` times gives the same key box as the key.
pub proof fn lemma_key_box_of_repeated_key(key: Seq<u8>, repeated: Seq<u8>, n: nat)
    requires
        key.len() > 0,
        n >= 1,
        repeated.len() == n * key.len(),
        forall|i: int| 0 <= i < repeated.len() ==> #[trigger] repeated[i] == key[i % (key.len() as int)],
    ensures
        spec_key_box(repeated) == spec_key_box(key),
{
    let l = key.len() as int;
    assert(repeated.len() > 0) by (nonlinear_arith)
        requires repeated.len() == n * key.len(), n >= 1, key.len() > 0;
    assert forall|i: int| 0 <= i < 256 implies
        #[trigger] repeated[i % (repeated.len() as int)] == key[i % l] by {
        vstd::arithmetic::div_mod::lemma_mod_mod(i, l, n as int);
        assert(l * (n as int) == repeated.len()) by (nonlinear_arith)
            requires repeated.len() == n * key.len(), l == key.len();
        let j = i % (repeated.len() as int);
        assert(0 <= j < repeated.len());
        assert(repeated[j] == key[j % l]);
    }
    lemma_key_box_uses_256_key_bytes(repeated, key);
}

/// Only the first 256 bytes of a key count: a longer key gives the key box
/// of its first 256 bytes.
pub proof fn lemma_key_box_of_long_key(key: Seq<u8>)
    requires
        key.len() >= 256,
    ensures
        spec_key_box(key) == spec_key_box(key.take(256)),
{
    let short = key.take(256);
    assert forall|i: int| 0 <= i < 256 implies
        #[trigger] key[i % (key.len() as int)] == short[i % (short.len() as int)] by {
        vstd::arithmetic::div_mod::lemma_small_mod(i as nat, key.len());
        vstd::arithmetic::div_mod::lemma_small_mod(i as nat, 256);
    }
    lemma_key_box_uses_256_key_bytes(key, short);
}

proof fn lemma_mod_succ(i: int, n: int)
    requires
        n > 0,
        i >= 0,
    ensures
        (i + 1) % n == (if i % n + 1 < n { i % n + 1 } else { 0 }),
{
    vstd::arithmetic::div_mod::lemma_fundamental_div_mod(i, n);
    let q = i / n;
    let r = i % n;
    assert(i == q * n + r) by (nonlinear_arith)
        requires i == n * (i / n) + (i % n), q == i / n, r == i % n;
    assert(0 <= r < n);
    if r + 1 < n {
        vstd::arithmetic::div_mod::lemma_fundamental_div_mod_converse(i + 1, n, q, r + 1);
    } else {
        assert(i + 1 == (q + 1) * n + 0) by (nonlinear_arith)
            requires i == q * n + r, r + 1 == n;
        vstd::arithmetic::div_mod::lemma_fundamental_div_mod_converse(i + 1, n, q + 1, 0);
    }
}

/// Builds the 256-byte key box of the audio stream cipher from `key`
/// (an RC4-like key schedule that also carries the last swap index).
pub fn build_key_box(key: &[u8]) -> (key_box: [u8; 256])
    requires
        key@.len() > 0,
    ensures
        key_box@ == spec_key_box(key@),
        is_byte_permutation(key_box@),
{
    let mut key_box = [0u8; 256];
    let mut i: usize = 0;
    while i < 256
        invariant
            i <= 256,
            forall|k: int| 0 <= k < i ==> key_box@[k] == k as u8,
        decreases 256 - i,
    {
        key_box[i] = i as u8;
        i = i + 1;
    }
    assert(key_box@ =~= key_box_state(key@, 0).0);
    let mut last_byte: u8 = 0;
    let mut key_offset: usize = 0;
    let mut i: usize = 0;
    while i < 256
        invariant
            i <= 256,
            key@.len() > 0,
            key_offset < key@.len(),
            key_offset as int == (i as int) % (key@.len() as int),
            (key_box@, last_byte) == key_box_state(key@, i as nat),
        decreases 256 - i,
    {
        let swap = key_box[i];
        let c: u8 = ((swap as u16 + last_byte as u16 + key[key_offset] as u16) % 256) as u8;
        key_offset = key_offset + 1;
        if key_offset >= key.len() {
            key_offset = 0;
        }
        proof {
            lemma_mod_succ(i as int, key@.len() as int);
        }
        key_box[i] = key_box[c as usize];
        key_box[c as usize] = swap;
        last_byte = c;
        i = i + 1;
    }
    proof {
        lemma_key_box_is_permutation(key@);
    }
    key_box
}


// ---------------------------------------------------------------------------
// Audio stream cipher
// ---------------------------------------------------------------------------

/// The key-stream byte XOR-ed into the audio byte at position `k`.
pub open spec fn ncm_stream_byte(kb: Seq<u8>, k: int) -> u8 {
    let j = (k + 1) % 256;
    let kj = kb[j] as int;
    kb[(kj + kb[(kj + j) % 256] as int) % 256]
}

/// The audio bytes XOR-ed with the key stream of `kb`, position by position.
pub open spec fn spec_ncm_decrypt_audio(kb: Seq<u8>, data: Seq<u8>) -> Seq<u8> {
    Seq::new(data.len(), |k: int| data[k] ^ ncm_stream_byte(kb, k))
}

/// The stream cipher is its own inverse: decrypting twice gives the data back.
pub proof fn lemma_ncm_audio_involution(kb: Seq<u8>, data: Seq<u8>)
    ensures
        spec_ncm_decrypt_audio(kb, spec_ncm_decrypt_audio(kb, data)) == data,
{
    let once = spec_ncm_decrypt_audio(kb, data);
    let twice = spec_ncm_decrypt_audio(kb, once);
    assert forall|k: int| 0 <= k < data.len() implies twice[k] == data[k] by {
        let a = data[k];
        let b = ncm_stream_byte(kb, k);
        assert((a ^ b) ^ b == a) by (bit_vector);
    }
    assert(twice =~= data);
}

/// The key stream of the NCM audio cipher: audio byte `k` is XOR-ed with
/// `kb[(kb[j] + kb[(kb[j] + j) mod 256]) mod 256]`, where the counter
/// `j = (k + 1) mod 256` starts at 1 for the first byte and wraps to 0 at
/// byte 255; the output keeps the length of the input.
pub proof fn lemma_ncm_audio_key_stream(kb: Seq<u8>, data: Seq<u8>)
    ensures
        spec_ncm_decrypt_audio(kb, data).len() == data.len(),
        forall|k: int| 0 <= k < data.len() ==> #[trigger] spec_ncm_decrypt_audio(kb, data)[k]
            == data[k] ^ kb[(kb[(k + 1) % 256] as int + kb[(kb[(k + 1) % 256] as int + (k + 1) % 256) % 256] as int) % 256],
        data.len() > 0 ==> spec_ncm_decrypt_audio(kb, data)[0]
            == data[0] ^ kb[(kb[1] as int + kb[(kb[1] as int + 1) % 256] as int) % 256],
{
}

/// Decrypts the audio part of an NCM file with the key box: byte `k` is
/// XOR-ed with the key-stream byte for position `k`.
pub fn decrypt_ncm_audio(key_box: &[u8; 256], data: &[u8]) -> (res: Vec<u8>)
    ensures
        res@ == spec_ncm_decrypt_audio(key_box@, data@),
{
    let mut out: Vec<u8> = Vec::new();
    let mut i: usize = 0;
    while i < data.len()
        invariant
            i <= data@.len(),
            out@ == spec_ncm_decrypt_audio(key_box@, data@).take(i as int),
        decreases data@.len() - i,
    {
        let j: usize = (i % 256 + 1) % 256;
        proof {
            assert((i as int + 1) % 256 == (i as int % 256 + 1) % 256) by (nonlinear_arith);
        }
        let key_j: usize = key_box[j] as usize;
        let idx: usize = (key_j + key_box[(key_j + j) % 256] as usize) % 256;
        let b = data[i] ^ key_box[idx];
        out.push(b);
        assert(spec_ncm_decrypt_audio(key_box@, data@).take(i as int).push(b)
            =~= spec_ncm_decrypt_audio(key_box@, data@).take(i + 1));
        i = i + 1;
    }
    assert(spec_ncm_decrypt_audio(key_box@, data@).take(i as int)
        =~= spec_ncm_decrypt_audio(key_box@, data@));
    out
}

/// The container format of decrypted audio: `mp3` when the data is longer
/// than two bytes and starts with an ID3 tag (`ID3`), `flac` otherwise.
pub open spec fn spec_audio_format(audio: Seq<u8>) -> Seq<char> {
    if audio.len() > 2 && audio[0] == 0x49 && audio[1] == 0x44 && audio[2] == 0x33 {
        "mp3"@
    } else {
        "flac"@
    }
}

/// Sniffs the format of decrypted audio from its first bytes.
pub fn detect_audio_format(audio: &[u8]) -> (res: String)
    ensures
        res@ == spec_audio_format(audio@),
{
    if audio.len() > 2 && audio[0] == 0x49 && audio[1] == 0x44 && audio[2] == 0x33 {
        String::from_str("mp3")
    } else {
        String::from_str("flac")
    }
}

/// The 8-byte signature that starts a PNG image.
pub open spec fn png_signature() -> Seq<u8> {
    seq![0x89u8, 0x50, 0x4e, 0x47, 0x0d, 0x0a, 0x1a, 0x0a]
}

/// The file extension of an embedded cover image: `png` when it starts with
/// the PNG signature, `jpg` otherwise.
pub open spec fn spec_cover_ext(cover: Seq<u8>) -> Seq<char> {
    if cover.len() >= 8 && cover.take(8) == png_signature() {
        "png"@
    } else {
        "jpg"@
    }
}

/// The file extension under which an embedded cover image is saved.
pub fn cover_file_ext(cover: &[u8]) -> (res: &'static str)
    ensures
        res@ == spec_cover_ext(cover@),
{
    if cover.len() >= 8 && cover[0] == 0x89 && cover[1] == 0x50 && cover[2] == 0x4e
        && cover[3] == 0x47 && cover[4] == 0x0d && cover[5] == 0x0a && cover[6] == 0x1a
        && cover[7] == 0x0a {
        assert(cover@.take(8) =~= png_signature());
        "png"
    } else {
        proof {
            if cover@.len() >= 8 && cover@.take(8) == png_signature() {
                assert(cover@.take(8)[0] == cover@[0]);
                assert(cover@.take(8)[7] == cover@[7]);
            }
        }
        "jpg"
    }
}

// ---------------------------------------------------------------------------
// Container layout
// ---------------------------------------------------------------------------

/// Byte `p` of `d`, or zero past the end (a short read leaves zeros).
pub open spec fn byte_or_zero(d: Seq<u8>, p: int) -> int {
    if 0 <= p < d.len() {
        d[p] as int
    } else {
        0
    }
}

/// The little-endian 32-bit value of the four bytes at `p`; bytes past the
/// end of `d` count as zero.
pub open spec fn u32_le_at(d: Seq<u8>, p: int) -> int {
    byte_or_zero(d, p) + 256 * byte_or_zero(d, p + 1) + 65536 * byte_or_zero(d, p + 2)
        + 16777216 * byte_or_zero(d, p + 3)
}

/// Every byte of `s` XOR-ed with `k`.
pub open spec fn xor_all(s: Seq<u8>, k: u8) -> Seq<u8> {
    Seq::new(s.len(), |i: int| s[i] ^ k)
}

pub open spec fn min_int(a: int, b: int) -> int {
    if a <= b {
        a
    } else {
        b
    }
}

/// First magic word, `CTEN`.
pub open spec fn ncm_magic1() -> int {
    0x4E455443
}

/// Second magic word, `FDAM`.
pub open spec fn ncm_magic2() -> int {
    0x4D414446
}

/// End of the key block: a 4-byte length at offset 10 (after the two magic
/// words and two version bytes), then the key bytes.
pub open spec fn ncm_key_end(d: Seq<u8>) -> int {
    14 + u32_le_at(d, 10)
}

/// Length of the metadata block, stored right after the key block.
pub open spec fn ncm_meta_len(d: Seq<u8>) -> int {
    u32_le_at(d, ncm_key_end(d))
}

pub open spec fn ncm_meta_start(d: Seq<u8>) -> int {
    ncm_key_end(d) + 4
}

pub open spec fn ncm_meta_end(d: Seq<u8>) -> int {
    ncm_meta_start(d) + ncm_meta_len(d)
}

/// Position of the cover data length: after the metadata, a 5-byte gap and
/// the 4-byte cover frame length (reads stop at the end of the file).
pub open spec fn ncm_cover_len_pos(d: Seq<u8>) -> int {
    min_int(ncm_meta_end(d) + 9, d.len() as int)
}

/// Length of the embedded cover (zero where the file ends early).
pub open spec fn ncm_cover_len(d: Seq<u8>) -> int {
    u32_le_at(d, ncm_cover_len_pos(d))
}

/// Start of the cover data: after its 4-byte length.
pub open spec fn ncm_cover_start(d: Seq<u8>) -> int {
    min_int(ncm_cover_len_pos(d) + 4, d.len() as int)
}

/// Start of the encrypted audio: right after the cover data.
pub open spec fn ncm_audio_start(d: Seq<u8>) -> int {
    min_int(ncm_cover_start(d) + ncm_cover_len(d), d.len() as int)
}

/// The embedded cover image: the cover data, as far as the file holds it.
pub open spec fn spec_ncm_cover(d: Seq<u8>) -> Seq<u8> {
    d.subrange(ncm_cover_start(d), ncm_audio_start(d))
}

/// The key block, XOR-ed with 0x64, or the message of the read that fails
/// before it is complete.
pub open spec fn spec_ncm_key_data(d: Seq<u8>) -> Result<Seq<u8>, Seq<char>> {
    if d.len() < 4 {
        Err("Failed to read magic"@)
    } else if u32_le_at(d, 0) != ncm_magic1() {
        Err("Not a valid NCM file (invalid magic 1)"@)
    } else if d.len() < 8 {
        Err("Failed to read magic 2"@)
    } else if u32_le_at(d, 4) != ncm_magic2() {
        Err("Not a valid NCM file (invalid magic 2)"@)
    } else if d.len() < 14 {
        Err("Read key length failed"@)
    } else if d.len() < ncm_key_end(d) {
        Err("Read key data failed"@)
    } else {
        Ok(xor_all(d.subrange(14, ncm_key_end(d)), 0x64))
    }
}

/// The message of the read that fails after the key block, if any.
pub open spec fn spec_ncm_body_error(d: Seq<u8>) -> Option<Seq<char>> {
    if d.len() < ncm_key_end(d) + 4 {
        Some("Read metadata length failed"@)
    } else if ncm_meta_len(d) > 0 && d.len() < ncm_meta_end(d) {
        Some("Read metadata failed"@)
    } else {
        None
    }
}

/// The metadata block, XOR-ed with 0x63 (empty when its length is zero).
pub open spec fn spec_ncm_meta_raw(d: Seq<u8>) -> Seq<u8> {
    xor_all(d.subrange(ncm_meta_start(d), ncm_meta_end(d)), 0x63)
}

/// The parts of an NCM file after its key block.
pub struct NcmBody {
    /// The metadata block, already XOR-ed with 0x63; empty when absent.
    pub metadata: Vec<u8>,
    /// Whether the cover data length is not zero.
    pub has_cover: bool,
    /// The embedded cover image (empty when there is none).
    pub cover: Vec<u8>,
    /// Offset of the encrypted audio.
    pub audio_start: usize,
}

fn read_u32_le(data: &[u8], p: u64) -> (v: u64)
    ensures
        v == u32_le_at(data@, p as int),
        v < 0x1_0000_0000,
{
    let len = data.len() as u64;
    let mut v: u64 = 0;
    let mut mul: u64 = 1;
    let mut k: u64 = 0;
    while k < 4
        invariant
            k <= 4,
            len == data@.len(),
            mul as int == (if k == 0 { 1int } else if k == 1 { 256int } else if k == 2 { 65536int } else if k == 3 { 16777216int } else { 0x1_0000_0000int }),
            v < mul,
            v == (if k >= 1 { byte_or_zero(data@, p as int) } else { 0 })
                + (if k >= 2 { 256 * byte_or_zero(data@, p + 1) } else { 0 })
                + (if k >= 3 { 65536 * byte_or_zero(data@, p + 2) } else { 0 })
                + (if k >= 4 { 16777216 * byte_or_zero(data@, p + 3) } else { 0 }),
        decreases 4 - k,
    {
        let q = p as u128 + k as u128;
        let b: u64 = if q < len as u128 { data[q as usize] as u64 } else { 0 };
        assert(b == byte_or_zero(data@, p + k));
        v = v + b * mul;
        mul = mul * 256;
        k = k + 1;
    }
    v
}

fn copy_range(data: &[u8], start: usize, end: usize) -> (res: Vec<u8>)
    requires
        start <= end <= data@.len(),
    ensures
        res@ == data@.subrange(start as int, end as int),
{
    let mut out: Vec<u8> = Vec::new();
    let mut i: usize = start;
    while i < end
        invariant
            start <= i <= end,
            end <= data@.len(),
            out@ == data@.subrange(start as int, i as int),
        decreases end - i,
    {
        out.push(data[i]);
        assert(data@.subrange(start as int, i as int).push(data@[i as int])
            =~= data@.subrange(start as int, i + 1));
        i = i + 1;
    }
    out
}

/// Reads the key block of an NCM file: checks both magic words, reads the
/// key length at offset 10 and the key bytes, and XORs them with 0x64.
pub fn read_ncm_key(data: &[u8]) -> (res: Result<Vec<u8>, String>)
    ensures
        match spec_ncm_key_data(data@) {
            Ok(k) => res matches Ok(v) && v@ == k,
            Err(m) => res matches Err(e) && e@ == m,
        },
{
    let len = data.len() as u64;
    if len < 4 {
        return Err(String::from_str("Failed to read magic"));
    }
    if read_u32_le(data, 0) != 0x4E455443 {
        return Err(String::from_str("Not a valid NCM file (invalid magic 1)"));
    }
    if len < 8 {
        return Err(String::from_str("Failed to read magic 2"));
    }
    if read_u32_le(data, 4) != 0x4D414446 {
        return Err(String::from_str("Not a valid NCM file (invalid magic 2)"));
    }
    if len < 14 {
        return Err(String::from_str("Read key length failed"));
    }
    let key_end: u64 = 14 + read_u32_le(data, 10);
    if len < key_end {
        return Err(String::from_str("Read key data failed"));
    }
    let mut key: Vec<u8> = Vec::new();
    let mut i: usize = 14;
    let end = key_end as usize;
    while i < end
        invariant
            14 <= i <= end,
            end == ncm_key_end(data@),
            end <= data@.len(),
            key@ == xor_all(data@.subrange(14, i as int), 0x64),
        decreases end - i,
    {
        key.push(data[i] ^ 0x64);
        assert(xor_all(data@.subrange(14, i as int), 0x64).push(data@[i as int] ^ 0x64)
            =~= xor_all(data@.subrange(14, i + 1), 0x64));
        i = i + 1;
    }
    Ok(key)
}

/// Reads what follows the key block: the metadata block (XOR-ed with 0x63),
/// whether a cover is embedded and its bytes, and where the encrypted audio
/// starts.
pub fn read_ncm_body(data: &[u8]) -> (res: Result<NcmBody, String>)
    ensures
        match spec_ncm_body_error(data@) {
            Some(m) => res matches Err(e) && e@ == m,
            None => res matches Ok(b) && b.metadata@ == spec_ncm_meta_raw(data@)
                && b.has_cover == (ncm_cover_len(data@) > 0)
                && b.cover@ == spec_ncm_cover(data@)
                && b.audio_start == ncm_audio_start(data@),
        },
{
    let len = data.len() as u64;
    let key_end: u64 = 14 + read_u32_le(data, 10);
    if len < key_end + 4 {
        return Err(String::from_str("Read metadata length failed"));
    }
    let meta_len = read_u32_le(data, key_end);
    let meta_start: u64 = key_end + 4;
    let meta_end: u64 = meta_start + meta_len;
    if meta_len > 0 && len < meta_end {
        return Err(String::from_str("Read metadata failed"));
    }
    let mut metadata: Vec<u8> = Vec::new();
    let mut i: usize = meta_start as usize;
    let end = meta_end as usize;
    while i < end
        invariant
            meta_start <= i <= end,
            end == ncm_meta_end(data@),
            meta_start == ncm_meta_start(data@),
            end <= data@.len(),
            metadata@ == xor_all(data@.subrange(meta_start as int, i as int), 0x63),
        decreases end - i,
    {
        metadata.push(data[i] ^ 0x63);
        assert(xor_all(data@.subrange(meta_start as int, i as int), 0x63).push(data@[i as int] ^ 0x63)
            =~= xor_all(data@.subrange(meta_start as int, i + 1), 0x63));
        i = i + 1;
    }
    let p_a: u64 = meta_end + 9;
    let cover_len_pos: u64 = if p_a <= len { p_a } else { len };
    let cover_len = read_u32_le(data, cover_len_pos);
    let p_b: u64 = if cover_len_pos + 4 <= len { cover_len_pos + 4 } else { len };
    let p_c: u64 = if p_b + cover_len <= len { p_b + cover_len } else { len };
    let cover = copy_range(data, p_b as usize, p_c as usize);
    Ok(NcmBody { metadata, has_cover: cover_len > 0, cover, audio_start: p_c as usize })
}


// ---------------------------------------------------------------------------
// Whole-file decryption
// ---------------------------------------------------------------------------

/// The AES key of the key block, `hzHRAmso5kInbaxW`.
pub open spec fn ncm_core_key() -> Seq<u8> {
    seq![104u8, 122, 72, 82, 65, 109, 115, 111, 53, 107, 73, 110, 98, 97, 120, 87]
}

/// The AES key of the metadata block, `#14jkbf!\]0U<'(.`.
pub open spec fn ncm_meta_key() -> Seq<u8> {
    seq![35u8, 49, 52, 106, 107, 98, 102, 33, 92, 93, 48, 85, 60, 39, 40, 46]
}

fn ncm_core_key_bytes() -> (k: [u8; 16])
    ensures
        k@ == ncm_core_key(),
{
    let k: [u8; 16] = [104, 122, 72, 82, 65, 109, 115, 111, 53, 107, 73, 110, 98, 97, 120, 87];
    assert(k@ =~= ncm_core_key());
    k
}

fn ncm_meta_key_bytes() -> (k: [u8; 16])
    ensures
        k@ == ncm_meta_key(),
{
    let k: [u8; 16] = [35, 49, 52, 106, 107, 98, 102, 33, 92, 93, 48, 85, 60, 39, 40, 46];
    assert(k@ =~= ncm_meta_key());
    k
}

/// The decrypted key block, of which the stream key is the part after the
/// first 17 bytes.
pub open spec fn spec_ncm_decrypted_key(kd: Seq<u8>) -> Seq<u8> {
    spec_aes_ecb_decrypt(ncm_core_key(), kd)
}

/// The key block can be used: it is a whole number of AES blocks and,
/// decrypted, longer than its 17-byte prefix.
pub open spec fn spec_ncm_key_usable(kd: Seq<u8>) -> bool {
    kd.len() % 16 == 0 && spec_ncm_decrypted_key(kd).len() >= 18
}

/// Base64 text of the metadata: the block after its 22-byte prefix.
pub open spec fn spec_ncm_meta_text(m: Seq<u8>) -> Seq<char> {
    spec_utf8_lossy(m.skip(22))
}

/// The decrypted metadata, of which the JSON text is the part after its
/// 6-byte prefix.
pub open spec fn spec_ncm_meta_plain(b: Seq<u8>) -> Seq<u8> {
    spec_aes_ecb_decrypt(ncm_meta_key(), b)
}

/// What decrypting an NCM file gives.
pub enum NcmOutcome {
    /// A read failed; the message says which.
    Fails(Seq<char>),
    /// The metadata is not valid Base64; the decoder's message.
    Base64Fails(Seq<char>),
    /// The file is malformed in a way that the decryption cannot handle
    /// (a key or metadata block of the wrong length).
    Malformed,
    /// The file decrypts.
    Decrypts { audio: Seq<u8>, metadata_json: Option<Seq<char>>, has_cover: bool, cover: Seq<u8> },
}

/// The outcome of decrypting the NCM file `d`.
pub open spec fn spec_ncm_outcome(d: Seq<u8>) -> NcmOutcome {
    match spec_ncm_key_data(d) {
        Err(m) => NcmOutcome::Fails(m),
        Ok(kd) => if !spec_ncm_key_usable(kd) {
            NcmOutcome::Malformed
        } else {
            match spec_ncm_body_error(d) {
                Some(m) => NcmOutcome::Fails(m),
                None => {
                    let kb = spec_key_box(spec_ncm_decrypted_key(kd).skip(17));
                    let audio = spec_ncm_decrypt_audio(kb, d.skip(ncm_audio_start(d)));
                    let has_cover = ncm_cover_len(d) > 0;
                    let cover = spec_ncm_cover(d);
                    let m = spec_ncm_meta_raw(d);
                    if m.len() == 0 {
                        NcmOutcome::Decrypts { audio, metadata_json: None, has_cover, cover }
                    } else if m.len() < 22 {
                        NcmOutcome::Malformed
                    } else {
                        match spec_base64_decode(spec_ncm_meta_text(m)) {
                            Err(msg) => NcmOutcome::Base64Fails(msg),
                            Ok(b) => if b.len() % 16 != 0 || spec_ncm_meta_plain(b).len() < 6 {
                                NcmOutcome::Malformed
                            } else {
                                NcmOutcome::Decrypts {
                                    audio,
                                    metadata_json: Some(spec_utf8_lossy(spec_ncm_meta_plain(b).skip(6))),
                                    has_cover,
                                    cover,
                                }
                            },
                        }
                    }
                },
            }
        },
    }
}

/// A decrypted NCM file.
pub struct NcmDecrypted {
    /// The decrypted audio.
    pub audio: Vec<u8>,
    /// `mp3` or `flac`, sniffed from the audio.
    pub format: String,
    /// The metadata JSON text, when the file has a metadata block.
    pub metadata_json: Option<String>,
    /// Whether a cover is embedded.
    pub has_cover: bool,
    /// The embedded cover image (empty when there is none).
    pub cover: Vec<u8>,
}

/// The result of decrypting `d` matches its outcome.
pub open spec fn ncm_result_matches(d: Seq<u8>, r: Result<NcmDecrypted, String>) -> bool {
    match spec_ncm_outcome(d) {
        NcmOutcome::Fails(m) => r matches Err(e) && e@ == m,
        NcmOutcome::Base64Fails(msg) => r matches Err(e)
            && e@ == "Base64 decode metadata failed: "@ + msg,
        NcmOutcome::Malformed => false,
        NcmOutcome::Decrypts { audio, metadata_json, has_cover, cover } => r matches Ok(v)
            && v.audio@ == audio
            && v.format@ == spec_audio_format(audio)
            && v.has_cover == has_cover
            && v.cover@ == cover
            && match metadata_json {
                None => v.metadata_json is None,
                Some(j) => v.metadata_json matches Some(t) && t@ == j,
            },
    }
}

/// Decrypts an NCM file held in memory. Returns `None` exactly when the file
/// is malformed in a way that the decryption cannot handle (the key block or
/// the decoded metadata is not a whole number of AES blocks, or a block is
/// shorter than the prefix that is cut from it); otherwise the result
/// described by `spec_ncm_outcome`.
pub fn try_decrypt_ncm_data(data: &[u8]) -> (res: Option<Result<NcmDecrypted, String>>)
    ensures
        res is None <==> spec_ncm_outcome(data@) is Malformed,
        res matches Some(r) ==> ncm_result_matches(data@, r),
{
    let key_data = match read_ncm_key(data) {
        Ok(k) => k,
        Err(e) => {
            return Some(Err(e));
        },
    };
    if key_data.len() % 16 != 0 {
        return None;
    }
    let core_key = ncm_core_key_bytes();
    let m_key_data = aes_ecb_decrypt(core_key.as_slice(), key_data.as_slice());
    if m_key_data.len() < 18 {
        return None;
    }
    let rc4_key = &m_key_data.as_slice()[17..m_key_data.len()];
    assert(rc4_key@ =~= spec_ncm_decrypted_key(key_data@).skip(17));
    let key_box = build_key_box(rc4_key);
    let body = match read_ncm_body(data) {
        Ok(b) => b,
        Err(e) => {
            return Some(Err(e));
        },
    };
    let mut metadata_json: Option<String> = None;
    if body.metadata.len() > 0 {
        if body.metadata.len() < 22 {
            return None;
        }
        let text = utf8_lossy(&body.metadata.as_slice()[22..body.metadata.len()]);
        assert(body.metadata@.subrange(22, body.metadata@.len() as int) =~= body.metadata@.skip(22));
        let modify_out = match base64_decode(text.as_str()) {
            Ok(v) => v,
            Err(e) => {
                let mut msg = String::from_str("Base64 decode metadata failed: ");
                msg.append(e.as_str());
                return Some(Err(msg));
            },
        };
        if modify_out.len() % 16 != 0 {
            return None;
        }
        let meta_key = ncm_meta_key_bytes();
        let modify_decrypt = aes_ecb_decrypt(meta_key.as_slice(), modify_out.as_slice());
        if modify_decrypt.len() < 6 {
            return None;
        }
        let json = utf8_lossy(&modify_decrypt.as_slice()[6..modify_decrypt.len()]);
        assert(modify_decrypt@.subrange(6, modify_decrypt@.len() as int) =~= modify_decrypt@.skip(6));
        metadata_json = Some(json);
    }
    let audio_enc = &data[body.audio_start..data.len()];
    assert(audio_enc@ =~= data@.skip(ncm_audio_start(data@)));
    let audio = decrypt_ncm_audio(&key_box, audio_enc);
    let format = detect_audio_format(audio.as_slice());
    Some(Ok(NcmDecrypted { audio, format, metadata_json, has_cover: body.has_cover, cover: body.cover }))
}

/// Decrypts an NCM file held in memory, for a file that the decryption can
/// handle (see `try_decrypt_ncm_data`).
pub fn decrypt_ncm_data(data: &[u8]) -> (res: Result<NcmDecrypted, String>)
    requires
        !(spec_ncm_outcome(data@) is Malformed),
    ensures
        ncm_result_matches(data@, res),
{
    match try_decrypt_ncm_data(data) {
        Some(r) => r,
        None => {
            proof {
                assert(false);
            }
            Err(String::new())
        },
    }
}


// ---------------------------------------------------------------------------
// Metadata
// ---------------------------------------------------------------------------

/// What the library reads of the metadata JSON of an NCM file.
pub struct NcmMetadata {
    pub name: String,
    pub artist: String,
    pub album: String,
    pub album_pic_url: String,
    pub format: String,
    pub duration: i64,
    pub bitrate: i64,
}

/// For each artist entry that is an array whose first element is a string,
/// that string, in order.
pub open spec fn spec_ncm_artist_names(artists: Seq<JsonValue>) -> Seq<Seq<char>>
    decreases artists.len(),
{
    if artists.len() == 0 {
        Seq::empty()
    } else {
        let rest = spec_ncm_artist_names(artists.drop_last());
        match json_array(artists.last()) {
            Some(inner) => if inner.len() > 0 {
                match json_str(inner[0]) {
                    Some(n) => rest.push(n),
                    None => rest,
                }
            } else {
                rest
            },
            None => rest,
        }
    }
}

/// `m` is what the metadata document `val` gives (`None` when the metadata
/// text is not JSON): `musicName`, `album`, the artist names joined with
/// ` / `, `albumPic`, `format`, `duration` and `bitrate`, each left empty
/// (or 0) when absent or of another type.
pub open spec fn is_ncm_metadata_of(m: NcmMetadata, val: Option<JsonValue>) -> bool {
    match val {
        None => {
            &&& m.name@.len() == 0 && m.artist@.len() == 0 && m.album@.len() == 0
            &&& m.album_pic_url@.len() == 0 && m.format@.len() == 0
            &&& m.duration == 0 && m.bitrate == 0
        },
        Some(v) => {
            &&& m.name@ == str_or_empty(opt_str(json_get(v, "musicName"@)))
            &&& m.album@ == str_or_empty(opt_str(json_get(v, "album"@)))
            &&& m.artist@ == match opt_array(json_get(v, "artist"@)) {
                Some(a) => spec_join(spec_ncm_artist_names(a), " / "@),
                None => Seq::empty(),
            }
            &&& m.album_pic_url@ == str_or_empty(opt_str(json_get(v, "albumPic"@)))
            &&& m.format@ == str_or_empty(opt_str(json_get(v, "format"@)))
            &&& m.duration == match opt_i64(json_get(v, "duration"@)) {
                Some(d) => d,
                None => 0i64,
            }
            &&& m.bitrate == match opt_i64(json_get(v, "bitrate"@)) {
                Some(b) => b,
                None => 0i64,
            }
        },
    }
}

fn str_field(v: &JsonValue, key: &str) -> (res: String)
    ensures
        res@ == str_or_empty(opt_str(json_get(*v, key@))),
{
    match v.get(key) {
        Some(x) => match x.as_str() {
            Some(t) => String::from_str(t),
            None => String::new(),
        },
        None => String::new(),
    }
}

fn i64_field(v: &JsonValue, key: &str) -> (res: i64)
    ensures
        res == (match opt_i64(json_get(*v, key@)) {
            Some(d) => d,
            None => 0i64,
        }),
{
    match v.get(key) {
        Some(x) => match x.as_i64() {
            Some(n) => n,
            None => 0,
        },
        None => 0,
    }
}

/// Reads the metadata document of an NCM file (`None` when its text is not
/// JSON, which leaves every field empty).
pub fn parse_ncm_metadata(val: Option<&JsonValue>) -> (res: NcmMetadata)
    ensures
        is_ncm_metadata_of(res, match val {
            Some(v) => Some(*v),
            None => None,
        }),
{
    match val {
        None => NcmMetadata {
            name: String::new(),
            artist: String::new(),
            album: String::new(),
            album_pic_url: String::new(),
            format: String::new(),
            duration: 0,
            bitrate: 0,
        },
        Some(v) => {
            let artist = match v.get("artist") {
                Some(a) => match a.as_array() {
                    Some(arr) => {
                        let mut names: Vec<String> = Vec::new();
                        let mut i: usize = 0;
                        while i < arr.len()
                            invariant
                                i <= arr@.len(),
                                strings_view(names@) == spec_ncm_artist_names(arr@.take(i as int)),
                            decreases arr@.len() - i,
                        {
                            assert(arr@.take(i + 1).drop_last() =~= arr@.take(i as int));
                            match arr[i].as_array() {
                                Some(inner) => if inner.len() > 0 {
                                    match inner[0].as_str() {
                                        Some(n) => {
                                            let ghost before = names@;
                                            names.push(String::from_str(n));
                                            assert(strings_view(names@) =~= strings_view(before).push(n@));
                                        },
                                        None => {},
                                    }
                                },
                                None => {},
                            }
                            i = i + 1;
                        }
                        assert(arr@.take(arr@.len() as int) =~= arr@);
                        join(&names, " / ")
                    },
                    None => String::new(),
                },
                None => String::new(),
            };
            NcmMetadata {
                name: str_field(v, "musicName"),
                artist,
                album: str_field(v, "album"),
                album_pic_url: str_field(v, "albumPic"),
                format: str_field(v, "format"),
                duration: i64_field(v, "duration"),
                bitrate: i64_field(v, "bitrate"),
            }
        },
    }
}

/// The document of a metadata text, when it is JSON.
pub open spec fn json_document(text: Seq<char>) -> Option<JsonValue> {
    match spec_json_parse(text) {
        Ok(v) => Some(v),
        Err(_) => None,
    }
}

/// Reads the metadata JSON text of an NCM file; a text that is not JSON
/// leaves every field empty.
pub fn parse_ncm_metadata_text(text: &str) -> (res: NcmMetadata)
    ensures
        is_ncm_metadata_of(res, json_document(text@)),
{
    match parse_json(text) {
        Ok(v) => parse_ncm_metadata(Some(&v)),
        Err(_) => parse_ncm_metadata(None),
    }
}

/// The metadata of a decrypted NCM file: read from its metadata text, or
/// every field empty when the file has no metadata block.
pub fn decrypted_metadata(decrypted: &NcmDecrypted) -> (res: NcmMetadata)
    ensures
        is_ncm_metadata_of(res, match decrypted.metadata_json {
            Some(t) => json_document(t@),
            None => None,
        }),
{
    match &decrypted.metadata_json {
        Some(t) => parse_ncm_metadata_text(t.as_str()),
        None => parse_ncm_metadata(None),
    }
}

/// The outcome of decrypting an NCM file, as shown to the user.
pub struct DecryptResult {
    pub file_path: String,
    pub format: String,
    pub name: String,
    pub artists: String,
    pub album: String,
    pub album_pic_url: String,
    pub has_cover_embedded: bool,
}

/// The record of a decrypted file written to `file_path`, with its metadata.
pub fn decrypt_result(file_path: String, decrypted: &NcmDecrypted, meta: NcmMetadata) -> (res: DecryptResult)
    ensures
        res.file_path == file_path,
        res.format@ == decrypted.format@,
        res.name == meta.name,
        res.artists == meta.artist,
        res.album == meta.album,
        res.album_pic_url == meta.album_pic_url,
        res.has_cover_embedded == decrypted.has_cover,
{
    DecryptResult {
        file_path,
        format: decrypted.format.clone(),
        name: meta.name,
        artists: meta.artist,
        album: meta.album,
        album_pic_url: meta.album_pic_url,
        has_cover_embedded: decrypted.has_cover,
    }
}

} // verus!
