use netease_toolkit::converter::{
    conversion_mode, converted, cover_is_png, embed_metadata_after, input_not_found,
    lame_bitrate_kbps, nearest_cbr_bitrate, patch_esds_for_apple_compat, sample_rate_to_freq_index,
    target_bitrate, timestamp_ms_to_year, unsupported_format, ConversionMode,
    home_relative, merge_metadata, AudioMetadata,
};

#[test]
fn nearest_rate_is_chosen_and_ties_go_down() {
    assert_eq!(nearest_cbr_bitrate(0), 128_000);
    assert_eq!(nearest_cbr_bitrate(144_000), 128_000);
    assert_eq!(nearest_cbr_bitrate(144_001), 160_000);
    assert_eq!(nearest_cbr_bitrate(200_000), 192_000);
    assert_eq!(nearest_cbr_bitrate(224_000), 192_000);
    assert_eq!(nearest_cbr_bitrate(300_000), 320_000);
    assert_eq!(nearest_cbr_bitrate(u32::MAX), 320_000);
}

#[test]
fn flac_sources_get_192_kbps() {
    assert_eq!(target_bitrate("flac", 900_000), 192_000);
    assert_eq!(target_bitrate("mp3", 330_000), 320_000);
}

#[test]
fn lame_rates_round_up() {
    assert_eq!(lame_bitrate_kbps(128_000), 128);
    assert_eq!(lame_bitrate_kbps(128_001), 160);
    assert_eq!(lame_bitrate_kbps(192_000), 192);
    assert_eq!(lame_bitrate_kbps(250_000), 256);
    assert_eq!(lame_bitrate_kbps(256_001), 320);
}

#[test]
fn sample_rates_have_mpeg4_indices() {
    assert_eq!(sample_rate_to_freq_index(96000), 0);
    assert_eq!(sample_rate_to_freq_index(44100), 4);
    assert_eq!(sample_rate_to_freq_index(48000), 3);
    assert_eq!(sample_rate_to_freq_index(7350), 12);
    assert_eq!(sample_rate_to_freq_index(12345), 4);
}

#[test]
fn years_come_from_millisecond_timestamps() {
    assert_eq!(timestamp_ms_to_year(1609459200000).as_deref(), Some("2021"));
    assert_eq!(timestamp_ms_to_year(1).as_deref(), Some("1970"));
    assert_eq!(timestamp_ms_to_year(0), None);
    assert_eq!(timestamp_ms_to_year(-5), None);
    assert_eq!(timestamp_ms_to_year(i64::MAX), None);
}

#[test]
fn years_are_exact_around_new_year() {
    assert_eq!(timestamp_ms_to_year(1593561600000).as_deref(), Some("2020"));
    assert_eq!(timestamp_ms_to_year(1704067200000).as_deref(), Some("2024"));
    assert_eq!(timestamp_ms_to_year(1704067199999).as_deref(), Some("2023"));
    assert_eq!(timestamp_ms_to_year(951782400000).as_deref(), Some("2000"));
    assert_eq!(timestamp_ms_to_year(253402214400000).as_deref(), Some("9999"));
    assert_eq!(timestamp_ms_to_year(253402300800000), None);
}

#[test]
fn download_tags_keep_positive_numbers_only() {
    let m = embed_metadata_after("T", "A", "B", 3, 1609459200000, 215);
    assert_eq!(m.title.as_deref(), Some("T"));
    assert_eq!(m.artist.as_deref(), Some("A"));
    assert_eq!(m.album.as_deref(), Some("B"));
    assert_eq!(m.track, Some(3));
    assert_eq!(m.year.as_deref(), Some("2021"));
    assert_eq!(m.duration_secs, Some(215));
    let m = embed_metadata_after("", "", "", 0, 0, -1);
    assert_eq!(m.track, None);
    assert_eq!(m.year, None);
    assert_eq!(m.duration_secs, None);
}

#[test]
fn conversion_modes() {
    assert!(matches!(conversion_mode("mp3", "mp3"), ConversionMode::CopyOnly));
    assert!(matches!(conversion_mode("flac", "mp3"), ConversionMode::EncodeMp3));
    assert!(matches!(conversion_mode("flac", "m4a"), ConversionMode::EncodeM4a));
    assert!(matches!(conversion_mode("flac", "ogg"), ConversionMode::Unsupported));
    assert!(matches!(conversion_mode("ogg", "ogg"), ConversionMode::CopyOnly));
}

#[test]
fn conversion_results() {
    let r = input_not_found("/x.flac");
    assert!(!r.success);
    assert_eq!(r.output_path, "");
    assert_eq!(r.error.as_deref(), Some("Input file not found: /x.flac"));
    let r = unsupported_format("ogg");
    assert_eq!(r.error.as_deref(), Some("Unsupported output format: ogg"));
    let r = converted("/o.mp3".to_string());
    assert!(r.success);
    assert_eq!(r.output_path, "/o.mp3");
    assert!(r.error.is_none());
}

#[test]
fn covers_are_png_by_extension() {
    assert!(cover_is_png("/a/b.png"));
    assert!(!cover_is_png("/a/b.jpg"));
    assert!(!cover_is_png("png"));
}

fn esds_box(descriptors: &[u8]) -> Vec<u8> {
    let size = (12 + descriptors.len()) as u32;
    let mut b = size.to_be_bytes().to_vec();
    b.extend_from_slice(b"esds");
    b.extend_from_slice(&[0, 0, 0, 0]);
    b.extend_from_slice(descriptors);
    b
}

#[test]
fn esds_sl_config_is_repaired() {
    let mut data = b"....moov".to_vec();
    data.extend(esds_box(&[3, 25, 0, 1, 0, 4, 17, 64, 6, 0, 0, 9, 9]));
    data.extend_from_slice(b"tail");
    let mut patched = data.clone();
    assert!(patch_esds_for_apple_compat(&mut patched));
    assert_eq!(patched.len(), data.len());
    let at = 8 + 12 + 8;
    assert_eq!(&patched[at..at + 3], &[6, 1, 2]);
    let mut expected = data.clone();
    expected[at + 1] = 1;
    expected[at + 2] = 2;
    assert_eq!(patched, expected);
}

#[test]
fn esds_without_a_broken_descriptor_is_left_alone() {
    let mut data = esds_box(&[3, 0, 6, 1, 2, 0, 0]);
    let before = data.clone();
    assert!(!patch_esds_for_apple_compat(&mut data));
    assert_eq!(data, before);
    let mut short = b"esds".to_vec();
    assert!(!patch_esds_for_apple_compat(&mut short));
    let mut oversized = vec![0xff, 0xff, 0xff, 0xff];
    oversized.extend_from_slice(b"esds\0\0\0\0\x06\0\0\0");
    assert!(!patch_esds_for_apple_compat(&mut oversized));
}

#[test]
fn the_last_broken_descriptor_of_a_box_is_repaired() {
    let mut data = esds_box(&[0, 0, 0, 0, 6, 0, 0, 6, 0, 0, 7]);
    data.extend_from_slice(b"pad!");
    assert!(patch_esds_for_apple_compat(&mut data));
    assert_eq!(&data[12..23], &[0, 0, 0, 0, 6, 0, 0, 6, 1, 2, 7]);
}

#[test]
fn a_box_ending_with_its_descriptor_is_repaired() {
    let mut data = vec![0, 0, 0, 0x0f, b'e', b's', b'd', b's', 0, 0, 0, 0, 6, 0, 0];
    assert!(patch_esds_for_apple_compat(&mut data));
    assert_eq!(data, vec![0, 0, 0, 0x0f, b'e', b's', b'd', b's', 0, 0, 0, 0, 6, 1, 2]);
}

#[test]
fn bytes_after_the_box_are_not_touched() {
    // the box holds one descriptor byte; the 06 00 00 after it belongs to
    // the next box
    let mut data = esds_box(&[9]);
    data.extend_from_slice(&[6, 0, 0, 0, 0, 0, 0, 0]);
    let before = data.clone();
    assert!(!patch_esds_for_apple_compat(&mut data));
    assert_eq!(data, before);
}

fn tags(title: Option<&str>, track: Option<u32>, year: Option<&str>) -> AudioMetadata {
    AudioMetadata {
        title: title.map(|s| s.to_string()),
        artist: None,
        album: None,
        track,
        year: year.map(|s| s.to_string()),
        duration_secs: None,
    }
}

#[test]
fn written_tags_replace_and_absent_ones_keep() {
    let merged = merge_metadata(tags(Some("Old"), Some(3), Some("1999")), tags(Some("New"), None, None));
    assert_eq!(merged.title.as_deref(), Some("New"));
    assert_eq!(merged.track, Some(3));
    assert_eq!(merged.year.as_deref(), Some("1999"));
    let kept = merge_metadata(tags(Some("Old"), Some(3), None), tags(None, None, None));
    assert_eq!(kept.title.as_deref(), Some("Old"));
    assert_eq!(kept.track, Some(3));
    assert_eq!(kept.year, None);
}

#[test]
fn home_paths_are_recognised() {
    assert_eq!(home_relative("~/Music/out").as_deref(), Some("Music/out"));
    assert_eq!(home_relative("~/").as_deref(), Some(""));
    assert_eq!(home_relative("~user/x"), None);
    assert_eq!(home_relative("/abs/path"), None);
}
