//! The JSON bodies of the eapi requests (which `crypto::encrypt_params`
//! writes and encrypts) and the song list of the song-detail form, as values
//! of the JSON model.
use vstd::prelude::*;

use vstd::string::StringExecFns;
use crate::json::{json_text, spec_json_text, JsonValue};
use crate::text::{i64_to_decimal, spec_decimal, str_eq};

verus! {

/// `v` is the JSON string `s`.
pub open spec fn is_json_string(v: JsonValue, s: Seq<char>) -> bool {
    v matches JsonValue::String(t) && t@ == s
}

/// `v` is the JSON integer `n`.
pub open spec fn is_json_int(v: JsonValue, n: i64) -> bool {
    v == JsonValue::Number(Some(n))
}

/// The `header` object of an eapi request: `os` `pc`, empty `appver` and
/// `osver`, `deviceId` `pyncm!`, and the request id as a string.
pub open spec fn is_eapi_header(v: JsonValue, request_id: u32) -> bool {
    &&& v matches JsonValue::Object(m)
    &&& m@.len() == 5
    &&& m@[0].0@ == "os"@ && is_json_string(m@[0].1, "pc"@)
    &&& m@[1].0@ == "appver"@ && is_json_string(m@[1].1, ""@)
    &&& m@[2].0@ == "osver"@ && is_json_string(m@[2].1, ""@)
    &&& m@[3].0@ == "deviceId"@ && is_json_string(m@[3].1, "pyncm!"@)
    &&& m@[4].0@ == "requestId"@ && is_json_string(m@[4].1, spec_decimal(request_id as int))
}

fn json_string(s: &str) -> (res: JsonValue)
    ensures
        is_json_string(res, s@),
{
    JsonValue::String(String::from_str(s))
}

/// The `header` object of an eapi request with its request id.
pub fn eapi_header(request_id: u32) -> (res: JsonValue)
    ensures
        is_eapi_header(res, request_id),
{
    let id = i64_to_decimal(request_id as i64);
    let members: Vec<(String, JsonValue)> = vec![
        (String::from_str("os"), json_string("pc")),
        (String::from_str("appver"), json_string("")),
        (String::from_str("osver"), json_string("")),
        (String::from_str("deviceId"), json_string("pyncm!")),
        (String::from_str("requestId"), JsonValue::String(id)),
    ];
    JsonValue::Object(members)
}

/// The body of a song-address request: the song id in `ids`, the quality as
/// `level`, `flac` as `encodeType`, the header, and, for the `sky` quality
/// only, `immerseType` `c51`.
pub open spec fn is_song_url_body(v: JsonValue, song_id: i64, quality: Seq<char>, request_id: u32) -> bool {
    &&& v matches JsonValue::Object(m)
    &&& m@.len() == (if quality == "sky"@ { 5int } else { 4int })
    &&& m@[0].0@ == "ids"@ && (m@[0].1 matches JsonValue::Array(a) && a@.len() == 1 && is_json_int(a@[0], song_id))
    &&& m@[1].0@ == "level"@ && is_json_string(m@[1].1, quality)
    &&& m@[2].0@ == "encodeType"@ && is_json_string(m@[2].1, "flac"@)
    &&& m@[3].0@ == "header"@ && is_eapi_header(m@[3].1, request_id)
    &&& quality == "sky"@ ==> m@[4].0@ == "immerseType"@ && is_json_string(m@[4].1, "c51"@)
}

/// The body of a song-address request.
pub fn song_url_body(song_id: i64, quality: &str, request_id: u32) -> (res: JsonValue)
    ensures
        is_song_url_body(res, song_id, quality@, request_id),
{
    let ids: Vec<JsonValue> = vec![JsonValue::Number(Some(song_id))];
    let mut members: Vec<(String, JsonValue)> = vec![
        (String::from_str("ids"), JsonValue::Array(ids)),
        (String::from_str("level"), json_string(quality)),
        (String::from_str("encodeType"), json_string("flac")),
        (String::from_str("header"), eapi_header(request_id)),
    ];
    if str_eq(quality, "sky") {
        members.push((String::from_str("immerseType"), json_string("c51")));
    }
    JsonValue::Object(members)
}

/// The body of a request for a QR login key: type 1 and the header.
pub open spec fn is_qr_key_body(v: JsonValue, request_id: u32) -> bool {
    &&& v matches JsonValue::Object(m)
    &&& m@.len() == 2
    &&& m@[0].0@ == "type"@ && is_json_int(m@[0].1, 1)
    &&& m@[1].0@ == "header"@ && is_eapi_header(m@[1].1, request_id)
}

/// The body of a request for a QR login key.
pub fn qr_key_body(request_id: u32) -> (res: JsonValue)
    ensures
        is_qr_key_body(res, request_id),
{
    let members: Vec<(String, JsonValue)> = vec![
        (String::from_str("type"), JsonValue::Number(Some(1))),
        (String::from_str("header"), eapi_header(request_id)),
    ];
    JsonValue::Object(members)
}

/// The body of a QR login check: the login key, type 1 and the header.
pub open spec fn is_qr_check_body(v: JsonValue, unikey: Seq<char>, request_id: u32) -> bool {
    &&& v matches JsonValue::Object(m)
    &&& m@.len() == 3
    &&& m@[0].0@ == "key"@ && is_json_string(m@[0].1, unikey)
    &&& m@[1].0@ == "type"@ && is_json_int(m@[1].1, 1)
    &&& m@[2].0@ == "header"@ && is_eapi_header(m@[2].1, request_id)
}

/// The body of a QR login check.
pub fn qr_check_body(unikey: &str, request_id: u32) -> (res: JsonValue)
    ensures
        is_qr_check_body(res, unikey@, request_id),
{
    let members: Vec<(String, JsonValue)> = vec![
        (String::from_str("key"), json_string(unikey)),
        (String::from_str("type"), JsonValue::Number(Some(1))),
        (String::from_str("header"), eapi_header(request_id)),
    ];
    JsonValue::Object(members)
}

/// One entry of a song-detail request: `{"id": id, "v": 0}`.
pub open spec fn is_song_detail_entry(v: JsonValue, id: i64) -> bool {
    &&& v matches JsonValue::Object(m)
    &&& m@.len() == 2
    &&& m@[0].0@ == "id"@ && is_json_int(m@[0].1, id)
    &&& m@[1].0@ == "v"@ && is_json_int(m@[1].1, 0)
}

/// The song list of a song-detail request: one entry per id, in order.
pub open spec fn is_song_detail_list(v: JsonValue, ids: Seq<i64>) -> bool {
    &&& v matches JsonValue::Array(a)
    &&& a@.len() == ids.len()
    &&& forall|i: int| 0 <= i < ids.len() ==> is_song_detail_entry(#[trigger] a@[i], ids[i])
}

/// The form value `c` of a song-detail request: the JSON text of the song
/// list for `ids`.
pub fn song_detail_form(ids: &[i64]) -> (res: String)
    ensures
        exists|v: JsonValue| is_song_detail_list(v, ids@) && #[trigger] spec_json_text(v) == res@,
{
    let list = song_detail_list(ids);
    json_text(&list)
}

fn song_detail_entry(id: i64) -> (res: JsonValue)
    ensures
        is_song_detail_entry(res, id),
{
    let members: Vec<(String, JsonValue)> = vec![
        (String::from_str("id"), JsonValue::Number(Some(id))),
        (String::from_str("v"), JsonValue::Number(Some(0))),
    ];
    JsonValue::Object(members)
}

/// The song list of a song-detail request for `ids`.
pub fn song_detail_list(ids: &[i64]) -> (res: JsonValue)
    ensures
        is_song_detail_list(res, ids@),
{
    let mut entries: Vec<JsonValue> = Vec::new();
    let mut i: usize = 0;
    while i < ids.len()
        invariant
            i <= ids@.len(),
            entries@.len() == i,
            forall|k: int| 0 <= k < i ==> is_song_detail_entry(#[trigger] entries@[k], ids@[k]),
        decreases ids@.len() - i,
    {
        entries.push(song_detail_entry(ids[i]));
        i = i + 1;
    }
    JsonValue::Array(entries)
}

} // verus!
