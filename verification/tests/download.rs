use netease_toolkit::download::{
    audio_ext_for_type, cookie_jar_pairs, download_progress, find_quality_index,
    infer_quality_from_ext, is_supported_audio_ext, local_song_info, quality_attempts, quality_at,
    quality_step, safe_file_name, split_char, QualityStep,
};
use netease_toolkit::SongUrlResult;

#[test]
fn quality_ladder_positions() {
    assert_eq!(find_quality_index("jymaster"), Some(0));
    assert_eq!(find_quality_index("lossless"), Some(4));
    assert_eq!(find_quality_index("standard"), Some(6));
    assert_eq!(find_quality_index("unknown"), None);
    assert_eq!(quality_at(3), "hires");
}

#[test]
fn quality_of_a_local_file_follows_its_extension() {
    assert_eq!(infer_quality_from_ext("flac"), "lossless");
    assert_eq!(infer_quality_from_ext("mp3"), "standard");
    assert_eq!(infer_quality_from_ext("FLAC"), "standard");
}

#[test]
fn fallback_goes_down_the_ladder() {
    assert_eq!(quality_attempts("lossless", true), vec!["lossless", "exhigh", "standard"]);
    assert_eq!(quality_attempts("standard", true), vec!["standard"]);
    assert_eq!(quality_attempts("whatever", true), vec!["standard"]);
    assert_eq!(quality_attempts("jymaster", true).len(), 7);
    assert_eq!(quality_attempts("hires", false), vec!["hires"]);
    assert_eq!(quality_attempts("whatever", false), vec!["whatever"]);
}

#[test]
fn file_names_lose_forbidden_characters() {
    assert_eq!(safe_file_name("a/b\\c:d*e?f\"g<h>i|j"), "a_b_c_d_e_f_g_h_i_j");
    assert_eq!(safe_file_name("歌曲 - Name"), "歌曲 - Name");
    assert_eq!(safe_file_name(""), "");
}

#[test]
fn download_extension_follows_the_type() {
    assert_eq!(audio_ext_for_type("flac"), "flac");
    assert_eq!(audio_ext_for_type("audio/x-flac"), "flac");
    assert_eq!(audio_ext_for_type("m4a"), "m4a");
    assert_eq!(audio_ext_for_type("mp3"), "mp3");
    assert_eq!(audio_ext_for_type(""), "mp3");
}

#[test]
fn split_keeps_empty_pieces() {
    assert_eq!(split_char("a;b;", ';'), vec!["a", "b", ""]);
    assert_eq!(split_char("", ';'), vec![""]);
    assert_eq!(split_char(";", ';'), vec!["", ""]);
}

#[test]
fn cookie_jar_gets_the_trimmed_pairs() {
    assert_eq!(cookie_jar_pairs("MUSIC_U=abc; __csrf=x;; flag ; =v"), vec!["MUSIC_U=abc", "__csrf=x", "=v"]);
    assert!(cookie_jar_pairs("").is_empty());
}

#[test]
fn progress_is_a_capped_percentage() {
    assert_eq!(download_progress(50, 200), 25);
    assert_eq!(download_progress(500, 200), 100);
    assert_eq!(download_progress(5, 0), 100);
    assert_eq!(download_progress(0, -3), 0);
    assert_eq!(download_progress(199, 200), 99);
}

#[test]
fn local_files() {
    assert!(is_supported_audio_ext("m4a"));
    assert!(!is_supported_audio_ext("ogg"));
    let info = local_song_info("stem", "flac", "3.0MB".to_string(), "/m/stem.flac".to_string(), true, false, None, None, None);
    assert_eq!(info.name, "stem");
    assert_eq!(info.artists, "");
    assert_eq!(info.quality, "lossless");
    assert_eq!(info.format, "flac");
    let info = local_song_info(
        "stem", "mp3", "1KB".to_string(), "/m/stem.mp3".to_string(), false, true,
        Some("hires".to_string()), Some("Title".to_string()), Some("Art".to_string()),
    );
    assert_eq!(info.name, "Title");
    assert_eq!(info.artists, "Art");
    assert_eq!(info.quality, "hires");
    assert!(info.has_lyric);
}

fn answer(url: &str) -> Result<SongUrlResult, String> {
    Ok(SongUrlResult { url: url.to_string(), size: 10, file_type: "mp3".to_string(), level: "standard".to_string() })
}

#[test]
fn the_first_answer_with_an_address_is_used() {
    assert!(matches!(quality_step(0, 3, &answer("http://x/a.mp3")), QualityStep::Use));
    assert!(matches!(quality_step(0, 3, &answer("")), QualityStep::TryNext(1)));
    assert!(matches!(quality_step(1, 3, &Err("Failed to get song URL".to_string())), QualityStep::TryNext(2)));
    match quality_step(2, 3, &answer("")) {
        QualityStep::Fail(m) => assert_eq!(m, "No available quality found for this song"),
        _ => panic!("the last attempt without an address fails"),
    }
    assert!(matches!(quality_step(0, 1, &answer("u")), QualityStep::Use));
}
