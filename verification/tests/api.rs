use base64::Engine;
use netease_toolkit::api::{
    artists_of, cookie_pairs, find_playlist, image_url, is_logged_in, parse_album_detail,
    parse_qr_unikey, parse_search_result, parse_song_detail, parse_song_list, parse_song_url,
    playlist_result, playlist_track_id_chunks, qr_check_result, qr_check_result_text, qr_login_result,
    with_lyrics,
};
use netease_toolkit::crypto::netease_encrypt_id;
use netease_toolkit::json::JsonValue;

fn to_json(v: &serde_json::Value) -> JsonValue {
    match v {
        serde_json::Value::Null => JsonValue::Null,
        serde_json::Value::Bool(b) => JsonValue::Bool(*b),
        serde_json::Value::Number(n) => JsonValue::Number(n.as_i64()),
        serde_json::Value::String(s) => JsonValue::String(s.clone()),
        serde_json::Value::Array(a) => JsonValue::Array(a.iter().map(to_json).collect()),
        serde_json::Value::Object(m) => {
            JsonValue::Object(m.iter().map(|(k, v)| (k.clone(), to_json(v))).collect())
        }
    }
}

fn parse(text: &str) -> JsonValue {
    to_json(&serde_json::from_str::<serde_json::Value>(text).unwrap())
}

#[test]
fn json_accessors_read_members() {
    let v = parse(r#"{"a": 1, "b": "x", "c": [1, 2], "d": 1.5, "e": null}"#);
    assert_eq!(v.get("a").and_then(|x| x.as_i64()), Some(1));
    assert_eq!(v.get("b").and_then(|x| x.as_str()), Some("x"));
    assert_eq!(v.get("c").and_then(|x| x.as_array()).map(|a| a.len()), Some(2));
    assert_eq!(v.get("d").and_then(|x| x.as_i64()), None);
    assert!(v.get("missing").is_none());
    assert!(v.get("b").unwrap().get("a").is_none());
}

#[test]
fn search_songs_are_read_with_defaults() {
    let r = parse(
        r#"{"result": {"songs": [
            {"id": 7, "name": "N", "ar": [{"name": "A"}, {"id": 3}, {"name": "B"}],
             "al": {"name": "AL", "picUrl": "http://p"}, "fee": 8},
            {"name": 5}
        ]}}"#,
    );
    let songs = parse_search_result(&r);
    assert_eq!(songs.len(), 2);
    assert_eq!(songs[0].id, 7);
    assert_eq!(songs[0].name, "N");
    assert_eq!(songs[0].artists, "A/B");
    assert_eq!(songs[0].album, "AL");
    assert_eq!(songs[0].pic_url, "http://p");
    assert_eq!(songs[0].fee, 8);
    assert_eq!(songs[1].id, 0);
    assert_eq!(songs[1].name, "");
    assert_eq!(songs[1].artists, "");
    assert_eq!(songs[1].fee, 0);
    assert!(parse_search_result(&parse(r#"{"code": 400}"#)).is_empty());
}

#[test]
fn artists_without_an_array_are_empty() {
    assert_eq!(artists_of(&parse(r#"{"ar": "x"}"#)), "");
    assert_eq!(artists_of(&parse(r#"{"ar": []}"#)), "");
    assert_eq!(artists_of(&parse(r#"{"ar": [{"name": "Solo"}]}"#)), "Solo");
}

#[test]
fn song_detail_needs_a_first_song() {
    let err = parse_song_detail(1, &parse(r#"{"songs": []}"#)).err().unwrap();
    assert_eq!(err, "Song not found");
    let err = parse_song_detail(1, &parse(r#"{}"#)).err().unwrap();
    assert_eq!(err, "Song not found");
}

#[test]
fn song_detail_reads_the_first_song_and_the_lyrics() {
    let r = parse(
        r#"{"songs": [{"name": "S", "ar": [{"name": "X"}], "al": {"name": "A", "picUrl": "u"},
            "dt": 215999, "no": 4294967299, "publishTime": 1609459200000}]}"#,
    );
    let d = parse_song_detail(42, &r).unwrap();
    assert_eq!(d.id, 42);
    assert_eq!(d.name, "S");
    assert_eq!(d.artists, "X");
    assert_eq!(d.album, "A");
    assert_eq!(d.pic_url, "u");
    assert_eq!(d.duration, 215);
    assert_eq!(d.track_number, 3);
    assert_eq!(d.publish_time, 1609459200000);
    assert_eq!(d.lyric, "");
    let d = with_lyrics(d, &parse(r#"{"lrc": {"lyric": "[00:01]la"}, "tlyric": {}}"#));
    assert_eq!(d.lyric, "[00:01]la");
    assert_eq!(d.tlyric, "");
    assert_eq!(d.name, "S");
}

#[test]
fn negative_durations_round_toward_zero() {
    let d = parse_song_detail(1, &parse(r#"{"songs": [{"dt": -1500}]}"#)).unwrap();
    assert_eq!(d.duration, -1);
}

#[test]
fn song_url_checks_the_code_and_the_data() {
    let err = parse_song_url(&parse(r#"{"code": 404}"#), "standard").err().unwrap();
    assert_eq!(err, "Failed to get song URL");
    let err = parse_song_url(&parse(r#"{"code": 200, "data": []}"#), "standard").err().unwrap();
    assert_eq!(err, "No URL data");
    let u = parse_song_url(&parse(r#"{"code": 200, "data": [{}]}"#), "hires").unwrap();
    assert_eq!(u.url, "");
    assert_eq!(u.size, 0);
    assert_eq!(u.file_type, "mp3");
    assert_eq!(u.level, "hires");
    let u = parse_song_url(
        &parse(r#"{"code": 200, "data": [{"url": "http://a", "size": 10, "type": "flac", "level": "lossless"}]}"#),
        "hires",
    )
    .unwrap();
    assert_eq!(u.url, "http://a");
    assert_eq!(u.size, 10);
    assert_eq!(u.file_type, "flac");
    assert_eq!(u.level, "lossless");
}

#[test]
fn playlist_track_ids_come_in_groups_of_one_hundred() {
    let ids: Vec<String> = (0..250).map(|i| format!("{{\"id\": {}}}", i)).collect();
    let text = format!("{{\"trackIds\": [{}, {{\"x\": 1}}]}}", ids.join(","));
    let p = parse(&text);
    let chunks = playlist_track_id_chunks(&p);
    assert_eq!(chunks.len(), 3);
    assert_eq!(chunks[0].len(), 100);
    assert_eq!(chunks[1][0], 100);
    assert_eq!(chunks[2].len(), 50);
    assert!(playlist_track_id_chunks(&parse("{}")).is_empty());
}

#[test]
fn playlist_record_reads_the_playlist_object() {
    assert_eq!(find_playlist(&parse("{}")).err().unwrap(), "Playlist not found");
    let r = parse(
        r#"{"playlist": {"id": 9, "name": "P", "coverImgUrl": "c", "creator": {"nickname": "me"},
            "trackCount": 2, "description": "d"}}"#,
    );
    let p = find_playlist(&r).unwrap();
    let tracks = parse_song_list(&parse(r#"{"songs": [{"id": 1}, {"id": 2}]}"#));
    let pl = playlist_result(p, tracks);
    assert_eq!(pl.id, 9);
    assert_eq!(pl.name, "P");
    assert_eq!(pl.cover_img_url, "c");
    assert_eq!(pl.creator, "me");
    assert_eq!(pl.track_count, 2);
    assert_eq!(pl.description, "d");
    assert_eq!(pl.tracks.len(), 2);
    assert_eq!(pl.tracks[1].id, 2);
}

#[test]
fn album_pictures_come_from_the_picture_id() {
    assert_eq!(parse_album_detail(&parse("{}")).err().unwrap(), "Album not found");
    let r = parse(
        r#"{"album": {"id": 3, "name": "AL", "pic": 12345, "artist": {"name": "AR"}},
            "songs": [{"id": 1, "name": "s1", "al": {"pic": 12345}},
                      {"id": 2, "al": {"picUrl": "http://u"}},
                      {"id": 3}]}"#,
    );
    let a = parse_album_detail(&r).unwrap();
    let url = format!("https://p3.music.126.net/{}/12345.jpg?param=300y300", netease_encrypt_id("12345"));
    assert_eq!(a.id, 3);
    assert_eq!(a.name, "AL");
    assert_eq!(a.artist, "AR");
    assert_eq!(a.cover_img_url, url);
    assert_eq!(a.songs.len(), 3);
    assert_eq!(a.songs[0].pic_url, url);
    assert_eq!(a.songs[0].album, "AL");
    assert_eq!(a.songs[1].pic_url, "http://u");
    assert_eq!(a.songs[2].pic_url, "");
    assert_eq!(image_url(12345), url);
    assert_eq!(
        image_url(-7),
        format!("https://p3.music.126.net/{}/-7.jpg?param=300y300", netease_encrypt_id("-7"))
    );
}

#[test]
fn qr_key_and_image() {
    assert_eq!(parse_qr_unikey(&parse(r#"{"unikey": "abc"}"#)).unwrap(), "abc");
    assert_eq!(parse_qr_unikey(&parse(r#"{"code": 200}"#)).err().unwrap(), "Failed to get unikey");
    let r = qr_login_result("abc".to_string()).unwrap();
    assert_eq!(r.unikey, "abc");
    assert!(r.qr_image_base64.starts_with("iVBORw0KGgo"));
    let png = base64::engine::general_purpose::STANDARD.decode(&r.qr_image_base64).unwrap();
    let width = u32::from_be_bytes([png[16], png[17], png[18], png[19]]);
    let height = u32::from_be_bytes([png[20], png[21], png[22], png[23]]);
    assert!(width >= 300 && height >= 300);
}

#[test]
fn login_cookies_are_kept_without_attributes() {
    let headers = vec![
        "MUSIC_U=abc; Path=/; HttpOnly".to_string(),
        " __csrf=x ; Max-Age=10".to_string(),
        "Path=/".to_string(),
        "flag".to_string(),
    ];
    assert_eq!(cookie_pairs(&headers), vec!["MUSIC_U=abc", "__csrf=x", "flag"]);
    let r = qr_check_result(&parse(r#"{"code": 803}"#), &headers);
    assert_eq!(r.code, 803);
    assert_eq!(r.cookie.as_deref(), Some("MUSIC_U=abc; __csrf=x; flag"));
    let r = qr_check_result(&parse(r#"{"code": 801}"#), &headers);
    assert_eq!(r.code, 801);
    assert!(r.cookie.is_none());
    let r = qr_check_result(&parse(r#"{}"#), &headers);
    assert_eq!(r.code, -1);
    let r = qr_check_result(&parse(r#"{"code": 803}"#), &vec!["Domain=x".to_string()]);
    assert!(r.cookie.is_none());
}

#[test]
fn login_status_looks_for_the_session_cookie() {
    assert!(is_logged_in("a=1; MUSIC_U=xyz"));
    assert!(!is_logged_in(""));
    assert!(!is_logged_in("a=1"));
}

#[test]
fn a_login_check_body_is_parsed_then_read() {
    let headers = vec!["MUSIC_U=abc; Path=/".to_string()];
    let r = qr_check_result_text(r#"{"code":803,"message":"ok"}"#, &headers).unwrap();
    assert_eq!(r.code, 803);
    assert_eq!(r.cookie.as_deref(), Some("MUSIC_U=abc"));
    let r = qr_check_result_text(r#"{"code":802}"#, &headers).unwrap();
    assert_eq!(r.code, 802);
    assert!(r.cookie.is_none());
    let err = qr_check_result_text("<html>", &headers).err().unwrap();
    assert_eq!(err, serde_json::from_str::<serde_json::Value>("<html>").unwrap_err().to_string());
}
