//! Reading the responses of the Netease music API. The requests themselves
//! are made by the application; these functions take the parsed JSON of a
//! response and give the library's records.
use vstd::prelude::*;

use vstd::string::StringExecFns;
use crate::crypto::{base64_encode, netease_encrypt_id, spec_base64_encode, spec_netease_encrypt_id};
use crate::json::{json_array, json_get, json_i64, json_str, opt_array, opt_get, opt_i64, opt_str, parse_json, spec_json_parse, str_or_empty, JsonValue};
use crate::text::{before_char, contains_str, i64_to_decimal, join, spec_before_char, spec_contains, spec_decimal, spec_join, spec_starts_with, spec_to_lowercase, spec_trim, starts_with_str, str_eq, strings_view, to_lowercase, trim};
use crate::{AlbumResult, PlaylistResult, QrLoginResult, SongDetail, SongResult, SongUrlResult};

verus! {

// ---------------------------------------------------------------------------
// Member access with defaults
// ---------------------------------------------------------------------------

/// The text of member `key` when it is a string, else the empty text.
pub open spec fn str_member(v: JsonValue, key: Seq<char>) -> Seq<char> {
    str_or_empty(opt_str(json_get(v, key)))
}

/// The text of member `k2` of member `k1` when it is a string, else empty.
pub open spec fn nested_str(v: JsonValue, k1: Seq<char>, k2: Seq<char>) -> Seq<char> {
    str_or_empty(opt_str(opt_get(json_get(v, k1), k2)))
}

/// The integer value of member `key`, or `default`.
pub open spec fn i64_member(v: JsonValue, key: Seq<char>, default: i64) -> i64 {
    match opt_i64(json_get(v, key)) {
        Some(x) => x,
        None => default,
    }
}

/// The text of member `key` when it is a string, else the empty string.
pub fn get_str_member(v: &JsonValue, key: &str) -> (res: String)
    ensures
        res@ == str_member(*v, key@),
{
    match v.get(key) {
        Some(x) => match x.as_str() {
            Some(s) => String::from_str(s),
            None => String::new(),
        },
        None => String::new(),
    }
}

/// The text of member `k2` of member `k1` when it is a string, else empty.
pub fn get_nested_str(v: &JsonValue, k1: &str, k2: &str) -> (res: String)
    ensures
        res@ == nested_str(*v, k1@, k2@),
{
    match v.get(k1) {
        Some(x) => get_str_member(x, k2),
        None => String::new(),
    }
}

/// The integer value of member `key`, or `default`.
pub fn get_i64_member(v: &JsonValue, key: &str, default: i64) -> (res: i64)
    ensures
        res == i64_member(*v, key@, default),
{
    match v.get(key) {
        Some(x) => match x.as_i64() {
            Some(n) => n,
            None => default,
        },
        None => default,
    }
}

// ---------------------------------------------------------------------------
// Songs
// ---------------------------------------------------------------------------

/// The `name` texts of the artist entries that have one, in order.
pub open spec fn spec_artist_names(artists: Seq<JsonValue>) -> Seq<Seq<char>>
    decreases artists.len(),
{
    if artists.len() == 0 {
        Seq::empty()
    } else {
        let rest = spec_artist_names(artists.drop_last());
        match opt_str(json_get(artists.last(), "name"@)) {
            Some(n) => rest.push(n),
            None => rest,
        }
    }
}

/// The artists of a song entry: the names under `ar` joined with `/`
/// (empty when there is no `ar` array).
pub open spec fn spec_artists_of(item: JsonValue) -> Seq<char> {
    match opt_array(json_get(item, "ar"@)) {
        Some(a) => spec_join(spec_artist_names(a), "/"@),
        None => Seq::empty(),
    }
}

/// The artists of a song entry, joined with `/`.
pub fn artists_of(item: &JsonValue) -> (res: String)
    ensures
        res@ == spec_artists_of(*item),
{
    match item.get("ar") {
        Some(ar) => match ar.as_array() {
            Some(arr) => {
                let mut names: Vec<String> = Vec::new();
                let mut i: usize = 0;
                while i < arr.len()
                    invariant
                        i <= arr@.len(),
                        strings_view(names@) == spec_artist_names(arr@.take(i as int)),
                    decreases arr@.len() - i,
                {
                    assert(arr@.take(i + 1).drop_last() =~= arr@.take(i as int));
                    match arr[i].get("name") {
                        Some(n) => match n.as_str() {
                            Some(s) => {
                                let ghost before = names@;
                                names.push(String::from_str(s));
                                assert(strings_view(names@) =~= strings_view(before).push(s@));
                            },
                            None => {},
                        },
                        None => {},
                    }
                    i = i + 1;
                }
                assert(arr@.take(arr@.len() as int) =~= arr@);
                join(&names, "/")
            },
            None => String::new(),
        },
        None => String::new(),
    }
}

/// `r` is the record of the song entry `item` of a search result or a
/// playlist: id, name, fee and the album's name and picture from `al`.
pub open spec fn is_song_result_of(r: SongResult, item: JsonValue) -> bool {
    &&& r.id == i64_member(item, "id"@, 0)
    &&& r.name@ == str_member(item, "name"@)
    &&& r.artists@ == spec_artists_of(item)
    &&& r.album@ == nested_str(item, "al"@, "name"@)
    &&& r.pic_url@ == nested_str(item, "al"@, "picUrl"@)
    &&& r.fee == i64_member(item, "fee"@, 0)
}

/// The record of one song entry of a search result or a playlist.
pub fn song_result_from(item: &JsonValue) -> (res: SongResult)
    ensures
        is_song_result_of(res, *item),
{
    SongResult {
        id: get_i64_member(item, "id", 0),
        name: get_str_member(item, "name"),
        artists: artists_of(item),
        fee: get_i64_member(item, "fee", 0),
        album: get_nested_str(item, "al", "name"),
        pic_url: get_nested_str(item, "al", "picUrl"),
    }
}

/// The records of a list of song entries, one for each, in order.
pub fn song_results_from(items: &Vec<JsonValue>) -> (res: Vec<SongResult>)
    ensures
        res@.len() == items@.len(),
        forall|i: int| 0 <= i < items@.len() ==> is_song_result_of(#[trigger] res@[i], items@[i]),
{
    let mut out: Vec<SongResult> = Vec::new();
    let mut i: usize = 0;
    while i < items.len()
        invariant
            i <= items@.len(),
            out@.len() == i,
            forall|k: int| 0 <= k < i ==> is_song_result_of(#[trigger] out@[k], items@[k]),
        decreases items@.len() - i,
    {
        out.push(song_result_from(&items[i]));
        i = i + 1;
    }
    out
}

/// The song entries of a search response: `result.songs`.
pub open spec fn spec_search_songs(result: JsonValue) -> Option<Seq<JsonValue>> {
    opt_array(opt_get(json_get(result, "result"@), "songs"@))
}

/// The songs of a search response (`result.songs`); none when the response
/// holds no such array.
pub fn parse_search_result(result: &JsonValue) -> (res: Vec<SongResult>)
    ensures
        match spec_search_songs(*result) {
            Some(items) => res@.len() == items.len()
                && forall|i: int| 0 <= i < items.len() ==> is_song_result_of(#[trigger] res@[i], items[i]),
            None => res@.len() == 0,
        },
{
    match result.get("result") {
        Some(r) => match r.get("songs") {
            Some(s) => match s.as_array() {
                Some(items) => song_results_from(items),
                None => Vec::new(),
            },
            None => Vec::new(),
        },
        None => Vec::new(),
    }
}

/// The songs of a song-detail response (`songs`); none when the response
/// holds no such array.
pub fn parse_song_list(result: &JsonValue) -> (res: Vec<SongResult>)
    ensures
        match opt_array(json_get(*result, "songs"@)) {
            Some(items) => res@.len() == items.len()
                && forall|i: int| 0 <= i < items.len() ==> is_song_result_of(#[trigger] res@[i], items[i]),
            None => res@.len() == 0,
        },
{
    match result.get("songs") {
        Some(s) => match s.as_array() {
            Some(items) => song_results_from(items),
            None => Vec::new(),
        },
        None => Vec::new(),
    }
}


// ---------------------------------------------------------------------------
// Song details and download address
// ---------------------------------------------------------------------------

/// The first element of an optional array.
pub open spec fn opt_first(a: Option<Seq<JsonValue>>) -> Option<JsonValue> {
    match a {
        Some(s) => if s.len() > 0 {
            Some(s[0])
        } else {
            None
        },
        None => None,
    }
}

/// Integer division by 1000 rounding toward zero, as Rust's `/` does.
pub open spec fn div_1000_toward_zero(a: int) -> int {
    if a >= 0 {
        a / 1000
    } else {
        -((-a) / 1000)
    }
}

/// `d` is the detail record, still without lyrics, of the song entry `song`
/// asked for by `song_id`.
pub open spec fn is_song_detail_of(d: SongDetail, song_id: i64, song: JsonValue) -> bool {
    &&& d.id == song_id
    &&& d.name@ == str_member(song, "name"@)
    &&& d.artists@ == spec_artists_of(song)
    &&& d.album@ == nested_str(song, "al"@, "name"@)
    &&& d.pic_url@ == nested_str(song, "al"@, "picUrl"@)
    &&& d.duration == div_1000_toward_zero(i64_member(song, "dt"@, 0) as int)
    &&& d.track_number == match opt_i64(json_get(song, "no"@)) {
        Some(v) => v as i32,
        None => 0i32,
    }
    &&& d.publish_time == i64_member(song, "publishTime"@, 0)
    &&& d.lyric@ == Seq::<char>::empty()
    &&& d.tlyric@ == Seq::<char>::empty()
}

proof fn lemma_artist_names_prefix(a: Seq<JsonValue>, names: Seq<Seq<char>>, n: int)
    requires
        0 <= n <= a.len(),
        a.len() == names.len(),
        forall|i: int| 0 <= i < a.len() ==> #[trigger] opt_str(json_get(a[i], "name"@)) == Some(names[i]),
    ensures
        spec_artist_names(a.take(n)) == names.take(n),
    decreases n,
{
    if n > 0 {
        lemma_artist_names_prefix(a, names, n - 1);
        assert(a.take(n).drop_last() =~= a.take(n - 1));
        assert(a.take(n).last() == a[n - 1]);
        assert(opt_str(json_get(a[n - 1], "name"@)) == Some(names[n - 1]));
        assert(names.take(n - 1).push(names[n - 1]) =~= names.take(n));
    } else {
        assert(a.take(0) =~= Seq::<JsonValue>::empty());
        assert(names.take(0) =~= Seq::<Seq<char>>::empty());
    }
}

/// When every `ar` entry of a song names its artist, the song's artists are
/// all those names, in order, joined with `/`.
pub proof fn lemma_artists_are_all_names(item: JsonValue, names: Seq<Seq<char>>)
    requires
        opt_array(json_get(item, "ar"@)) matches Some(a) && a.len() == names.len()
            && forall|i: int| 0 <= i < a.len() ==> #[trigger] opt_str(json_get(a[i], "name"@)) == Some(names[i]),
    ensures
        spec_artists_of(item) == spec_join(names, "/"@),
{
    let a = opt_array(json_get(item, "ar"@)).unwrap();
    lemma_artist_names_prefix(a, names, a.len() as int);
    assert(a.take(a.len() as int) =~= a);
    assert(names.take(names.len() as int) =~= names);
}

/// A song detail describes its song entry as a search result does: the same
/// name, the same artists (all the names under `ar`, joined with `/`), the
/// same album and the same picture.
pub proof fn lemma_detail_agrees_with_search(d: SongDetail, song_id: i64, r: SongResult, song: JsonValue)
    requires
        is_song_detail_of(d, song_id, song),
        is_song_result_of(r, song),
    ensures
        d.name@ == r.name@,
        d.artists@ == r.artists@,
        d.album@ == r.album@,
        d.pic_url@ == r.pic_url@,
{
}

/// Reads a song-detail response: the first entry of `songs`, or the error
/// `Song not found`. The lyrics are left empty (see `with_lyrics`).
pub fn parse_song_detail(song_id: i64, result: &JsonValue) -> (res: Result<SongDetail, String>)
    ensures
        match opt_first(opt_array(json_get(*result, "songs"@))) {
            None => res matches Err(e) && e@ == "Song not found"@,
            Some(song) => res matches Ok(d) && is_song_detail_of(d, song_id, song),
        },
{
    let song = match result.get("songs") {
        Some(s) => match s.as_array() {
            Some(arr) => if arr.len() > 0 {
                &arr[0]
            } else {
                return Err(String::from_str("Song not found"));
            },
            None => {
                return Err(String::from_str("Song not found"));
            },
        },
        None => {
            return Err(String::from_str("Song not found"));
        },
    };
    let dt = get_i64_member(song, "dt", 0);
    let track_number: i32 = match song.get("no") {
        Some(n) => match n.as_i64() {
            Some(v) => v as i32,
            None => 0,
        },
        None => 0,
    };
    Ok(SongDetail {
        id: song_id,
        name: get_str_member(song, "name"),
        artists: artists_of(song),
        album: get_nested_str(song, "al", "name"),
        pic_url: get_nested_str(song, "al", "picUrl"),
        duration: dt / 1000,
        track_number,
        publish_time: get_i64_member(song, "publishTime", 0),
        lyric: String::new(),
        tlyric: String::new(),
    })
}

/// The detail record with the lyrics of a lyric response: `lrc.lyric` and
/// `tlyric.lyric` (empty where absent).
pub fn with_lyrics(detail: SongDetail, lyric_result: &JsonValue) -> (res: SongDetail)
    ensures
        res.id == detail.id,
        res.name == detail.name,
        res.artists == detail.artists,
        res.album == detail.album,
        res.pic_url == detail.pic_url,
        res.duration == detail.duration,
        res.track_number == detail.track_number,
        res.publish_time == detail.publish_time,
        res.lyric@ == nested_str(*lyric_result, "lrc"@, "lyric"@),
        res.tlyric@ == nested_str(*lyric_result, "tlyric"@, "lyric"@),
{
    SongDetail {
        lyric: get_nested_str(lyric_result, "lrc", "lyric"),
        tlyric: get_nested_str(lyric_result, "tlyric", "lyric"),
        ..detail
    }
}

/// The text of member `key` when it is a string, else `default`.
pub open spec fn str_member_or(v: JsonValue, key: Seq<char>, default: Seq<char>) -> Seq<char> {
    match opt_str(json_get(v, key)) {
        Some(t) => t,
        None => default,
    }
}

fn get_str_member_or(v: &JsonValue, key: &str, default: &str) -> (res: String)
    ensures
        res@ == str_member_or(*v, key@, default@),
{
    match v.get(key) {
        Some(x) => match x.as_str() {
            Some(s) => String::from_str(s),
            None => String::from_str(default),
        },
        None => String::from_str(default),
    }
}

/// Reads a song-address response for the quality asked for: the error
/// `Failed to get song URL` unless `code` is 200, the error `No URL data`
/// without a first `data` entry; otherwise its `url` (empty if absent),
/// `size` (0), `type` (`mp3`) and `level` (the quality asked for).
pub fn parse_song_url(result: &JsonValue, quality: &str) -> (res: Result<SongUrlResult, String>)
    ensures
        opt_i64(json_get(*result, "code"@)) != Some(200i64)
            ==> (res matches Err(e) && e@ == "Failed to get song URL"@),
        opt_i64(json_get(*result, "code"@)) == Some(200i64) ==> (match opt_first(opt_array(json_get(*result, "data"@))) {
            None => res matches Err(e) && e@ == "No URL data"@,
            Some(data) => res matches Ok(u)
                && u.url@ == str_member(data, "url"@)
                && u.size == i64_member(data, "size"@, 0)
                && u.file_type@ == str_member_or(data, "type"@, "mp3"@)
                && u.level@ == str_member_or(data, "level"@, quality@),
        }),
{
    let code = match result.get("code") {
        Some(c) => c.as_i64(),
        None => None,
    };
    if code != Some(200i64) {
        return Err(String::from_str("Failed to get song URL"));
    }
    let data = match result.get("data") {
        Some(d) => match d.as_array() {
            Some(arr) => if arr.len() > 0 {
                &arr[0]
            } else {
                return Err(String::from_str("No URL data"));
            },
            None => {
                return Err(String::from_str("No URL data"));
            },
        },
        None => {
            return Err(String::from_str("No URL data"));
        },
    };
    Ok(SongUrlResult {
        url: get_str_member(data, "url"),
        size: get_i64_member(data, "size", 0),
        file_type: get_str_member_or(data, "type", "mp3"),
        level: get_str_member_or(data, "level", quality),
    })
}


// ---------------------------------------------------------------------------
// Playlists
// ---------------------------------------------------------------------------

/// The integer `id` members of the entries that have one, in order.
pub open spec fn spec_ids_of(entries: Seq<JsonValue>) -> Seq<i64>
    decreases entries.len(),
{
    if entries.len() == 0 {
        Seq::empty()
    } else {
        let rest = spec_ids_of(entries.drop_last());
        match opt_i64(json_get(entries.last(), "id"@)) {
            Some(id) => rest.push(id),
            None => rest,
        }
    }
}

/// The `c`-th group of at most 100 entries.
pub open spec fn chunk_of_100(entries: Seq<JsonValue>, c: int) -> Seq<JsonValue> {
    let end = if 100 * c + 100 <= entries.len() { 100 * c + 100 } else { entries.len() as int };
    entries.subrange(100 * c, end)
}

/// The playlist object of a playlist response, or `Playlist not found`.
pub fn find_playlist(result: &JsonValue) -> (res: Result<&JsonValue, String>)
    ensures
        match json_get(*result, "playlist"@) {
            Some(p) => res matches Ok(r) && *r == p,
            None => res matches Err(e) && e@ == "Playlist not found"@,
        },
{
    match result.get("playlist") {
        Some(p) => Ok(p),
        None => Err(String::from_str("Playlist not found")),
    }
}

fn ids_of_range(entries: &Vec<JsonValue>, start: usize, end: usize) -> (res: Vec<i64>)
    requires
        start <= end <= entries@.len(),
    ensures
        res@ == spec_ids_of(entries@.subrange(start as int, end as int)),
{
    let mut ids: Vec<i64> = Vec::new();
    let mut i: usize = start;
    while i < end
        invariant
            start <= i <= end,
            end <= entries@.len(),
            ids@ == spec_ids_of(entries@.subrange(start as int, i as int)),
        decreases end - i,
    {
        assert(entries@.subrange(start as int, i + 1).drop_last() =~= entries@.subrange(start as int, i as int));
        match entries[i].get("id") {
            Some(v) => match v.as_i64() {
                Some(id) => {
                    ids.push(id);
                },
                None => {},
            },
            None => {},
        }
        i = i + 1;
    }
    ids
}

/// The track ids of a playlist in the groups in which their details are
/// asked for: `trackIds` cut into groups of 100 entries, each group keeping
/// the integer `id` of its entries. No group when there is no `trackIds`
/// array.
pub fn playlist_track_id_chunks(playlist: &JsonValue) -> (res: Vec<Vec<i64>>)
    ensures
        match opt_array(json_get(*playlist, "trackIds"@)) {
            None => res@.len() == 0,
            Some(entries) => res@.len() == (entries.len() + 99) / 100
                && forall|c: int| 0 <= c < res@.len() ==>
                    (#[trigger] res@[c])@ == spec_ids_of(chunk_of_100(entries, c)),
        },
{
    let mut out: Vec<Vec<i64>> = Vec::new();
    match playlist.get("trackIds") {
        Some(t) => match t.as_array() {
            Some(entries) => {
                let n = entries.len();
                let mut start: usize = 0;
                let mut c: usize = 0;
                while start < n
                    invariant
                        n == entries@.len(),
                        start <= n,
                        start < n ==> start == 100 * c,
                        c <= (n + 99) / 100,
                        start < n ==> c < (n + 99) / 100,
                        start >= n ==> c == (n + 99) / 100,
                        out@.len() == c,
                        forall|k: int| 0 <= k < c ==>
                            (#[trigger] out@[k])@ == spec_ids_of(chunk_of_100(entries@, k)),
                    decreases n - start,
                {
                    let end: usize = if n - start >= 100 { start + 100 } else { n };
                    let ids = ids_of_range(entries, start, end);
                    assert(entries@.subrange(start as int, end as int) =~= chunk_of_100(entries@, c as int));
                    out.push(ids);
                    start = end;
                    c = c + 1;
                    proof {
                        if end == n {
                            assert((n + 99) / 100 == c) by (nonlinear_arith)
                                requires n as int <= 100 * c, 100 * (c - 1) < n;
                        } else {
                            assert(c < (n + 99) / 100) by (nonlinear_arith)
                                requires 100 * c < n;
                            assert(end == 100 * c);
                        }
                    }
                }
                out
            },
            None => out,
        },
        None => out,
    }
}

/// `r` is the record of the playlist object `p` with the given tracks.
pub open spec fn is_playlist_result_of(r: PlaylistResult, p: JsonValue, tracks: Seq<SongResult>) -> bool {
    &&& r.id == i64_member(p, "id"@, 0)
    &&& r.name@ == str_member(p, "name"@)
    &&& r.cover_img_url@ == str_member(p, "coverImgUrl"@)
    &&& r.creator@ == nested_str(p, "creator"@, "nickname"@)
    &&& r.track_count == match opt_i64(json_get(p, "trackCount"@)) {
        Some(v) => v as i32,
        None => 0i32,
    }
    &&& r.description@ == str_member(p, "description"@)
    &&& r.tracks@ == tracks
}

/// The record of a playlist object with the tracks read for it.
pub fn playlist_result(playlist: &JsonValue, tracks: Vec<SongResult>) -> (res: PlaylistResult)
    ensures
        is_playlist_result_of(res, *playlist, tracks@),
{
    let track_count: i32 = match playlist.get("trackCount") {
        Some(n) => match n.as_i64() {
            Some(v) => v as i32,
            None => 0,
        },
        None => 0,
    };
    PlaylistResult {
        id: get_i64_member(playlist, "id", 0),
        name: get_str_member(playlist, "name"),
        cover_img_url: get_str_member(playlist, "coverImgUrl"),
        creator: get_nested_str(playlist, "creator", "nickname"),
        track_count,
        description: get_str_member(playlist, "description"),
        tracks,
    }
}

// ---------------------------------------------------------------------------
// Albums
// ---------------------------------------------------------------------------

/// The address of a 300x300 image from its picture id.
pub open spec fn spec_image_url(pid: i64) -> Seq<char> {
    "https://p3.music.126.net/"@ + spec_netease_encrypt_id(spec_decimal(pid as int)) + "/"@
        + spec_decimal(pid as int) + ".jpg?param=300y300"@
}

/// The address of a 300x300 image from its picture id.
pub fn image_url(pid: i64) -> (res: String)
    ensures
        res@ == spec_image_url(pid),
{
    let id_text = i64_to_decimal(pid);
    let enc = netease_encrypt_id(id_text.as_str());
    let mut url = String::from_str("https://p3.music.126.net/");
    url.append(enc.as_str());
    url.append("/");
    url.append(id_text.as_str());
    url.append(".jpg?param=300y300");
    url
}

/// The picture of an album song: from the picture id of `al.pic` when it is
/// an integer, else the text of `al.picUrl`, else empty.
pub open spec fn spec_album_song_pic(song: JsonValue) -> Seq<char> {
    match json_get(song, "al"@) {
        None => Seq::empty(),
        Some(al) => match opt_i64(json_get(al, "pic"@)) {
            Some(pid) => spec_image_url(pid),
            None => str_member(al, "picUrl"@),
        },
    }
}

/// `r` is the record of the song entry `s` of the album object `album`.
pub open spec fn is_album_song_of(r: SongResult, s: JsonValue, album: JsonValue) -> bool {
    &&& r.id == i64_member(s, "id"@, 0)
    &&& r.name@ == str_member(s, "name"@)
    &&& r.artists@ == spec_artists_of(s)
    &&& r.album@ == str_member(album, "name"@)
    &&& r.pic_url@ == spec_album_song_pic(s)
    &&& r.fee == i64_member(s, "fee"@, 0)
}

fn album_song_from(s: &JsonValue, album: &JsonValue) -> (res: SongResult)
    ensures
        is_album_song_of(res, *s, *album),
{
    let pic_url = match s.get("al") {
        None => String::new(),
        Some(al) => match al.get("pic") {
            Some(p) => match p.as_i64() {
                Some(pid) => image_url(pid),
                None => get_str_member(al, "picUrl"),
            },
            None => get_str_member(al, "picUrl"),
        },
    };
    SongResult {
        id: get_i64_member(s, "id", 0),
        name: get_str_member(s, "name"),
        artists: artists_of(s),
        fee: get_i64_member(s, "fee", 0),
        album: get_str_member(album, "name"),
        pic_url,
    }
}

/// The cover of an album: from the picture id of `pic`, else empty.
pub open spec fn spec_album_cover(album: JsonValue) -> Seq<char> {
    match opt_i64(json_get(album, "pic"@)) {
        Some(pid) => spec_image_url(pid),
        None => Seq::empty(),
    }
}

/// Reads an album response: the error `Album not found` without an `album`
/// object; otherwise the album's id, name, cover and artist, and its songs
/// from the `songs` array (none when absent).
pub fn parse_album_detail(result: &JsonValue) -> (res: Result<AlbumResult, String>)
    ensures
        match json_get(*result, "album"@) {
            None => res matches Err(e) && e@ == "Album not found"@,
            Some(album) => res matches Ok(a)
                && a.id == i64_member(album, "id"@, 0)
                && a.name@ == str_member(album, "name"@)
                && a.cover_img_url@ == spec_album_cover(album)
                && a.artist@ == nested_str(album, "artist"@, "name"@)
                && match opt_array(json_get(*result, "songs"@)) {
                    None => a.songs@.len() == 0,
                    Some(items) => a.songs@.len() == items.len()
                        && forall|i: int| 0 <= i < items.len() ==>
                            is_album_song_of(#[trigger] a.songs@[i], items[i], album),
                },
        },
{
    let album = match result.get("album") {
        Some(a) => a,
        None => {
            return Err(String::from_str("Album not found"));
        },
    };
    let mut songs: Vec<SongResult> = Vec::new();
    match result.get("songs") {
        Some(sv) => match sv.as_array() {
            Some(items) => {
                let mut i: usize = 0;
                while i < items.len()
                    invariant
                        i <= items@.len(),
                        songs@.len() == i,
                        forall|k: int| 0 <= k < i ==> is_album_song_of(#[trigger] songs@[k], items@[k], *album),
                    decreases items@.len() - i,
                {
                    songs.push(album_song_from(&items[i], album));
                    i = i + 1;
                }
            },
            None => {},
        },
        None => {},
    }
    let cover_img_url = match album.get("pic") {
        Some(p) => match p.as_i64() {
            Some(pid) => image_url(pid),
            None => String::new(),
        },
        None => String::new(),
    };
    Ok(AlbumResult {
        id: get_i64_member(album, "id", 0),
        name: get_str_member(album, "name"),
        cover_img_url,
        artist: get_nested_str(album, "artist", "name"),
        songs,
    })
}


// ---------------------------------------------------------------------------
// QR-code login
// ---------------------------------------------------------------------------

/// The login key of a QR-key response (`unikey`), or `Failed to get unikey`.
pub fn parse_qr_unikey(result: &JsonValue) -> (res: Result<String, String>)
    ensures
        match opt_str(json_get(*result, "unikey"@)) {
            Some(k) => res matches Ok(u) && u@ == k,
            None => res matches Err(e) && e@ == "Failed to get unikey"@,
        },
{
    match result.get("unikey") {
        Some(v) => match v.as_str() {
            Some(k) => Ok(String::from_str(k)),
            None => Err(String::from_str("Failed to get unikey")),
        },
        None => Err(String::from_str("Failed to get unikey")),
    }
}

/// The page the login QR code points to.
pub open spec fn spec_qr_login_url(unikey: Seq<char>) -> Seq<char> {
    "https://music.163.com/login?codekey="@ + unikey
}

/// The QR code encodes the login page followed by the login key: the text
/// is the 36-character page prefix and then the key, so the key can be read
/// back from it and different keys give different QR texts.
pub proof fn lemma_qr_login_url_holds_key(k1: Seq<char>, k2: Seq<char>)
    ensures
        spec_qr_login_url(k1).len() == 36 + k1.len(),
        spec_qr_login_url(k1).take(36) == "https://music.163.com/login?codekey="@,
        spec_qr_login_url(k1).skip(36) == k1,
        spec_qr_login_url(k1) == spec_qr_login_url(k2) ==> k1 == k2,
{
    reveal_strlit("https://music.163.com/login?codekey=");
    let p = "https://music.163.com/login?codekey="@;
    assert(p.len() == 36);
    assert((p + k1).take(36) =~= p);
    assert((p + k1).skip(36) =~= k1);
    assert((p + k2).skip(36) =~= k2);
}

/// The PNG image of the QR code that encodes a text, at least `min_size`
/// pixels on each side; or the message of the error when the text does not
/// fit in a QR code or the image cannot be written.
pub uninterp spec fn spec_qr_png(text: Seq<char>, min_size: u32) -> Result<Seq<u8>, Seq<char>>;

/// Renders a QR code with `qrcode::QrCode::new`, `render::<image::Luma<u8>>`
/// with `min_dimensions(min_size, min_size)`, and writes it as PNG with
/// `ImageBuffer::write_to`. Claimed: the result is the named image, or the
/// text of the crate's error.
#[verifier::external_body]
fn render_qr_png(text: &str, min_size: u32) -> (res: Result<Vec<u8>, String>)
    ensures
        match spec_qr_png(text@, min_size) {
            Ok(png) => res matches Ok(v) && v@ == png,
            Err(m) => res matches Err(e) && e@ == m,
        },
{
    let code = qrcode::QrCode::new(text).map_err(|e| e.to_string())?;
    let img = code.render::<image::Luma<u8>>().min_dimensions(min_size, min_size).build();
    let mut png = std::io::Cursor::new(Vec::new());
    img.write_to(&mut png, image::ImageFormat::Png).map_err(|e| e.to_string())?;
    Ok(png.into_inner())
}

/// The side, in pixels, below which the login QR image is not drawn.
pub const QR_MIN_SIZE: u32 = 300;

/// The login QR code for a login key: the PNG image (at least 300 pixels on
/// each side), in Base64, of the QR code of the login page for that key; or
/// the error of drawing it.
pub fn qr_login_result(unikey: String) -> (res: Result<QrLoginResult, String>)
    ensures
        match spec_qr_png(spec_qr_login_url(unikey@), QR_MIN_SIZE) {
            Err(m) => res matches Err(e) && e@ == m,
            Ok(png) => res matches Ok(r) && r.unikey == unikey
                && r.qr_image_base64@ == spec_base64_encode(png),
        },
{
    let mut url = String::from_str("https://music.163.com/login?codekey=");
    url.append(unikey.as_str());
    let png = render_qr_png(url.as_str(), QR_MIN_SIZE)?;
    let b64 = base64_encode(png.as_slice());
    Ok(QrLoginResult { unikey, qr_image_base64: b64 })
}

/// The outcome of a login check: the service's `code` (-1 when absent) and,
/// once the login is confirmed, the session cookie.
pub struct QrCheckResult {
    pub code: i64,
    pub cookie: Option<String>,
}

/// Whether a cookie pair is a cookie attribute rather than a cookie: its
/// lower-case form starts with `path=`, `domain=`, `expires=`, `max-age=`,
/// `samesite=`, `httponly=` or `secure=`.
pub open spec fn is_cookie_attribute(kv: Seq<char>) -> bool {
    let l = spec_to_lowercase(kv);
    spec_starts_with(l, "path="@) || spec_starts_with(l, "domain="@)
        || spec_starts_with(l, "expires="@) || spec_starts_with(l, "max-age="@)
        || spec_starts_with(l, "samesite="@) || spec_starts_with(l, "httponly="@)
        || spec_starts_with(l, "secure="@)
}

/// The pair of a `Set-Cookie` header: the trimmed text before its first `;`.
pub open spec fn spec_cookie_pair(header: Seq<char>) -> Seq<char> {
    spec_trim(spec_before_char(header, ';'))
}

/// Whether a cookie pair is kept: it has no `=`, or it is no attribute.
pub open spec fn keeps_cookie_pair(kv: Seq<char>) -> bool {
    !spec_contains(kv, "="@) || !is_cookie_attribute(kv)
}

/// The cookie pairs kept from `Set-Cookie` headers, in order.
pub open spec fn spec_cookie_pairs(headers: Seq<Seq<char>>) -> Seq<Seq<char>>
    decreases headers.len(),
{
    if headers.len() == 0 {
        Seq::empty()
    } else {
        let rest = spec_cookie_pairs(headers.drop_last());
        let kv = spec_cookie_pair(headers.last());
        if keeps_cookie_pair(kv) {
            rest.push(kv)
        } else {
            rest
        }
    }
}

fn is_cookie_attribute_exec(kv: &str) -> (res: bool)
    ensures
        res == is_cookie_attribute(kv@),
{
    let l = to_lowercase(kv);
    let ls = l.as_str();
    starts_with_str(ls, "path=") || starts_with_str(ls, "domain=")
        || starts_with_str(ls, "expires=") || starts_with_str(ls, "max-age=")
        || starts_with_str(ls, "samesite=") || starts_with_str(ls, "httponly=")
        || starts_with_str(ls, "secure=")
}

/// The cookie pairs kept from `Set-Cookie` headers: for each header the
/// trimmed text before its first `;`, unless it is a cookie attribute.
pub fn cookie_pairs(headers: &Vec<String>) -> (res: Vec<String>)
    ensures
        strings_view(res@) == spec_cookie_pairs(strings_view(headers@)),
{
    let mut out: Vec<String> = Vec::new();
    let mut i: usize = 0;
    while i < headers.len()
        invariant
            i <= headers@.len(),
            strings_view(out@) == spec_cookie_pairs(strings_view(headers@).take(i as int)),
        decreases headers@.len() - i,
    {
        let ghost hv = strings_view(headers@).take(i + 1);
        assert(hv.drop_last() =~= strings_view(headers@).take(i as int));
        assert(hv.last() == headers@[i as int]@);
        let first = before_char(headers[i].as_str(), ';');
        let kv = trim(first.as_str());
        let keep = !contains_str(kv.as_str(), "=") || !is_cookie_attribute_exec(kv.as_str());
        if keep {
            let ghost before = out@;
            let ghost kvv = kv@;
            out.push(kv);
            assert(strings_view(out@) =~= strings_view(before).push(kvv));
        }
        i = i + 1;
    }
    assert(strings_view(headers@).take(headers@.len() as int) =~= strings_view(headers@));
    out
}

/// Reads a login-check response with the `Set-Cookie` headers that came
/// with it: the `code` (-1 when absent) and, when the code is 803 (login
/// confirmed) and some cookie pairs are kept, those pairs joined with `; `.
pub fn qr_check_result(result: &JsonValue, cookie_headers: &Vec<String>) -> (res: QrCheckResult)
    ensures
        res.code == i64_member(*result, "code"@, -1i64),
        opt_i64(json_get(*result, "code"@)) == Some(803i64)
            && spec_cookie_pairs(strings_view(cookie_headers@)).len() > 0
            ==> (res.cookie matches Some(c)
                && c@ == spec_join(spec_cookie_pairs(strings_view(cookie_headers@)), "; "@)),
        !(opt_i64(json_get(*result, "code"@)) == Some(803i64)
            && spec_cookie_pairs(strings_view(cookie_headers@)).len() > 0) ==> res.cookie is None,
{
    let code = get_i64_member(result, "code", -1);
    let confirmed = match result.get("code") {
        Some(c) => c.as_i64() == Some(803i64),
        None => false,
    };
    if confirmed {
        let pairs = cookie_pairs(cookie_headers);
        if pairs.len() > 0 {
            return QrCheckResult { code, cookie: Some(join(&pairs, "; ")) };
        }
    }
    QrCheckResult { code, cookie: None }
}

/// Reads the body of a login-check response with the `Set-Cookie` headers
/// that came with it: the parser's error when the body is not JSON,
/// otherwise what `qr_check_result` reads of the document.
pub fn qr_check_result_text(body: &str, cookie_headers: &Vec<String>) -> (res: Result<QrCheckResult, String>)
    ensures
        match spec_json_parse(body@) {
            Err(m) => res matches Err(e) && e@ == m,
            Ok(result) => res matches Ok(r)
                && r.code == i64_member(result, "code"@, -1i64)
                && (opt_i64(json_get(result, "code"@)) == Some(803i64)
                    && spec_cookie_pairs(strings_view(cookie_headers@)).len() > 0
                    ==> (r.cookie matches Some(c)
                        && c@ == spec_join(spec_cookie_pairs(strings_view(cookie_headers@)), "; "@)))
                && (!(opt_i64(json_get(result, "code"@)) == Some(803i64)
                    && spec_cookie_pairs(strings_view(cookie_headers@)).len() > 0) ==> r.cookie is None),
        },
{
    let result = parse_json(body)?;
    Ok(qr_check_result(&result, cookie_headers))
}

/// Whether a saved cookie holds a login session: it is not empty and
/// contains `MUSIC_U=`.
pub fn is_logged_in(cookie: &str) -> (res: bool)
    ensures
        res == (cookie@.len() > 0 && spec_contains(cookie@, "MUSIC_U="@)),
{
    !cookie.is_empty() && contains_str(cookie, "MUSIC_U=")
}

} // verus!
