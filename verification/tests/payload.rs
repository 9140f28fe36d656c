use netease_toolkit::json::{json_text, parse_json, JsonValue};
use netease_toolkit::payload::{eapi_header, qr_check_body, qr_key_body, song_detail_form, song_detail_list, song_url_body};

fn text(v: &JsonValue) -> String {
    json_text(v)
}

#[test]
fn the_header_holds_the_request_id() {
    assert_eq!(
        text(&eapi_header(25000000)),
        r#"{"appver":"","deviceId":"pyncm!","os":"pc","osver":"","requestId":"25000000"}"#
    );
}

#[test]
fn the_song_address_body_has_the_immersive_type_for_sky_only() {
    assert_eq!(
        text(&song_url_body(1234, "standard", 20000001)),
        r#"{"encodeType":"flac","header":{"appver":"","deviceId":"pyncm!","os":"pc","osver":"","requestId":"20000001"},"ids":[1234],"level":"standard"}"#
    );
    let sky = text(&song_url_body(-5, "sky", 29999999));
    assert!(sky.contains(r#""immerseType":"c51""#));
    assert!(sky.contains(r#""ids":[-5]"#));
    assert!(!text(&song_url_body(1, "hires", 20000000)).contains("immerseType"));
}

#[test]
fn the_qr_bodies_carry_the_key_and_type() {
    assert_eq!(
        text(&qr_key_body(22222222)),
        r#"{"header":{"appver":"","deviceId":"pyncm!","os":"pc","osver":"","requestId":"22222222"},"type":1}"#
    );
    let check = text(&qr_check_body("ab\"c", 22222222));
    assert!(check.contains(r#""key":"ab\"c""#));
    assert!(check.contains(r#""type":1"#));
}

#[test]
fn the_song_detail_form_lists_each_id() {
    assert_eq!(song_detail_form(&[7]), r#"[{"id":7,"v":0}]"#);
    assert_eq!(song_detail_form(&[1, -2, 3]), r#"[{"id":1,"v":0},{"id":-2,"v":0},{"id":3,"v":0}]"#);
    assert_eq!(song_detail_form(&[]), "[]");
    assert_eq!(text(&song_detail_list(&[9])), song_detail_form(&[9]));
}

#[test]
fn json_text_and_parse_agree() {
    let v = parse_json(r#"{"b":[1,"x\n",true,null],"a":{"k":-3}}"#).unwrap();
    assert_eq!(text(&v), r#"{"a":{"k":-3},"b":[1,"x\n",true,null]}"#);
    let err = parse_json("{oops").err().unwrap();
    assert_eq!(err, serde_json::from_str::<serde_json::Value>("{oops").unwrap_err().to_string());
    assert!(matches!(parse_json("2.5").unwrap(), JsonValue::Number(None)));
}
