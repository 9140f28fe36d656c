//! The decisions of audio conversion and tagging. Decoding, encoding and
//! file access are done by the application; these functions compute what
//! it passes to them.
use vstd::prelude::*;

use vstd::string::StringExecFns;
use crate::text::{ends_with_str, i64_to_decimal, spec_decimal, spec_ends_with, str_eq, str_to_chars, string_from_chars};

verus! {

/// What is asked of one conversion.
pub struct ConvertParams {
    pub input_path: String,
    pub output_format: String,
    pub embed_cover: bool,
    pub embed_lyric: bool,
    pub output_dir: String,
}

/// The outcome of one conversion.
pub struct ConvertResult {
    pub output_path: String,
    pub success: bool,
    pub error: Option<String>,
}

/// Tags read from, or written to, an audio file. Absent tags are `None`.
pub struct AudioMetadata {
    pub title: Option<String>,
    pub artist: Option<String>,
    pub album: Option<String>,
    pub track: Option<u32>,
    pub year: Option<String>,
    pub duration_secs: Option<u32>,
}

// ---------------------------------------------------------------------------
// Bit rates
// ---------------------------------------------------------------------------

/// The constant bit rates the encoders are given, in bits per second.
pub open spec fn standard_rates() -> Seq<u32> {
    seq![128_000u32, 160_000, 192_000, 256_000, 320_000]
}

pub open spec fn abs_diff(a: int, b: int) -> int {
    if a > b {
        a - b
    } else {
        b - a
    }
}

/// `r` is the standard rate nearest to `est`; on a tie, the lower one.
pub open spec fn is_nearest_rate(est: u32, r: u32) -> bool {
    exists|i: int| 0 <= i < 5 && #[trigger] standard_rates()[i] == r
        && (forall|j: int| 0 <= j < 5 ==> abs_diff(est as int, r as int)
            <= abs_diff(est as int, #[trigger] standard_rates()[j] as int))
        && (forall|j: int| 0 <= j < i ==> abs_diff(est as int, r as int)
            < abs_diff(est as int, #[trigger] standard_rates()[j] as int))
}

/// Maps an estimated source bit rate (bits per second) to the nearest
/// standard constant bit rate; on a tie, the lower one.
pub fn nearest_cbr_bitrate(estimated_bps: u32) -> (best: u32)
    ensures
        is_nearest_rate(estimated_bps, best),
{
    let rates: [u32; 5] = [128_000, 160_000, 192_000, 256_000, 320_000];
    assert(rates@ =~= standard_rates());
    let mut best: u32 = 192_000;
    let mut best_idx: usize = 0;
    let mut min_diff: u32 = u32::MAX;
    let mut k: usize = 0;
    while k < 5
        invariant
            k <= 5,
            rates@ == standard_rates(),
            k == 0 ==> min_diff == u32::MAX,
            k > 0 ==> best_idx < k && best == rates@[best_idx as int]
                && min_diff as int == abs_diff(estimated_bps as int, best as int),
            forall|j: int| 0 <= j < k ==> min_diff as int <= abs_diff(estimated_bps as int, rates@[j] as int),
            forall|j: int| 0 <= j < best_idx ==> (min_diff as int) < abs_diff(estimated_bps as int, rates@[j] as int),
        decreases 5 - k,
    {
        let r = rates[k];
        let diff: u32 = if estimated_bps > r { estimated_bps - r } else { r - estimated_bps };
        if diff < min_diff {
            min_diff = diff;
            best = r;
            best_idx = k;
        }
        k = k + 1;
    }
    assert(standard_rates()[best_idx as int] == best);
    best
}

/// The bit rate of a cross-format conversion: 192 kbps for a FLAC source,
/// otherwise the standard rate nearest to the source's estimated rate.
pub fn target_bitrate(input_ext: &str, estimated_bps: u32) -> (res: u32)
    ensures
        input_ext@ == "flac"@ ==> res == 192_000,
        input_ext@ != "flac"@ ==> is_nearest_rate(estimated_bps, res),
{
    if str_eq(input_ext, "flac") {
        192_000
    } else {
        nearest_cbr_bitrate(estimated_bps)
    }
}

/// The LAME bit-rate setting, in kbps, for a target rate in bits per
/// second: the smallest of 128, 160, 192 and 256 kbps that is not below
/// it, else 320 kbps.
pub fn lame_bitrate_kbps(bps: u32) -> (kbps: u32)
    ensures
        kbps == (if bps <= 128_000 {
            128u32
        } else if bps <= 160_000 {
            160u32
        } else if bps <= 192_000 {
            192u32
        } else if bps <= 256_000 {
            256u32
        } else {
            320u32
        }),
{
    if bps <= 128_000 {
        128
    } else if bps <= 160_000 {
        160
    } else if bps <= 192_000 {
        192
    } else if bps <= 256_000 {
        256
    } else {
        320
    }
}

/// The MPEG-4 sampling-frequency index of a sample rate (0 for 96000 Hz up
/// to 12 for 7350 Hz); rates without an index get the index of 44100 Hz.
pub open spec fn spec_freq_index(rate: u32) -> u8 {
    if rate == 96000 {
        0
    } else if rate == 88200 {
        1
    } else if rate == 64000 {
        2
    } else if rate == 48000 {
        3
    } else if rate == 44100 {
        4
    } else if rate == 32000 {
        5
    } else if rate == 24000 {
        6
    } else if rate == 22050 {
        7
    } else if rate == 16000 {
        8
    } else if rate == 12000 {
        9
    } else if rate == 11025 {
        10
    } else if rate == 8000 {
        11
    } else if rate == 7350 {
        12
    } else {
        4
    }
}

/// The MPEG-4 sampling-frequency index of a sample rate.
pub fn sample_rate_to_freq_index(rate: u32) -> (idx: u8)
    ensures
        idx == spec_freq_index(rate),
        idx <= 12,
{
    match rate {
        96000 => 0,
        88200 => 1,
        64000 => 2,
        48000 => 3,
        44100 => 4,
        32000 => 5,
        24000 => 6,
        22050 => 7,
        16000 => 8,
        12000 => 9,
        11025 => 10,
        8000 => 11,
        7350 => 12,
        _ => 4,
    }
}

// ---------------------------------------------------------------------------
// Tags
// ---------------------------------------------------------------------------

/// The number of days from 1970-01-01 to 1 January of year `y` of the
/// Gregorian calendar (a year is a leap year when divisible by 4, except
/// centuries not divisible by 400), for `y >= 1`.
pub open spec fn year_start_day(y: int) -> int {
    365 * (y - 1970) + (y - 1) / 4 - (y - 1) / 100 + (y - 1) / 400 - 477
}

/// Day number `days` (day 0 is 1970-01-01) falls in year `y`.
pub open spec fn is_year_of_day(y: int, days: int) -> bool {
    year_start_day(y) <= days < year_start_day(y + 1)
}

/// A year has 365 or 366 days.
pub proof fn lemma_year_length(y: int)
    requires
        y >= 1,
    ensures
        365 <= year_start_day(y + 1) - year_start_day(y) <= 366,
{
    let a = y - 1;
    assert(0 <= y / 4 - a / 4 <= 1);
    assert(0 <= y / 100 - a / 100 <= 1);
    assert(0 <= y / 400 - a / 400 <= 1);
    assert(y / 100 - a / 100 == 1 ==> y % 100 == 0);
    assert(y % 100 == 0 ==> y % 4 == 0);
    assert(y / 100 - a / 100 == 1 ==> y / 4 - a / 4 == 1);
    assert(y / 400 - a / 400 == 1 ==> y % 400 == 0);
    assert(y % 400 == 0 ==> y % 100 == 0);
    assert(y / 400 - a / 400 == 1 ==> y / 100 - a / 100 == 1);
}

/// Later years start later.
pub proof fn lemma_year_start_increasing(a: int, b: int)
    requires
        1 <= a < b,
    ensures
        year_start_day(a) < year_start_day(b),
    decreases b - a,
{
    lemma_year_length(a);
    if a + 1 < b {
        lemma_year_start_increasing(a + 1, b);
    }
}

/// A day falls in one year only.
pub proof fn lemma_year_of_day_unique(y1: int, y2: int, days: int)
    requires
        y1 >= 1,
        y2 >= 1,
        is_year_of_day(y1, days),
        is_year_of_day(y2, days),
    ensures
        y1 == y2,
{
    if y1 < y2 {
        if y1 + 1 < y2 {
            lemma_year_start_increasing(y1 + 1, y2);
        }
    } else if y2 < y1 {
        if y2 + 1 < y1 {
            lemma_year_start_increasing(y2 + 1, y1);
        }
    }
}

/// The calendar year (UTC) of a publish time in milliseconds since the Unix
/// epoch; `None` for a time that is not positive or a year past 9999.
pub open spec fn spec_year_of(publish_time_ms: i64) -> Option<Seq<char>> {
    if publish_time_ms <= 0 {
        None
    } else {
        let days = publish_time_ms / 1000 / 86400;
        if days >= year_start_day(10000) {
            None
        } else {
            Some(spec_decimal(choose|y: int| y >= 1 && is_year_of_day(y, days)))
        }
    }
}

fn year_start_day_exec(y: i64) -> (r: i64)
    requires
        1 <= y <= 10000,
    ensures
        r == year_start_day(y as int),
{
    365 * (y - 1970) + (y - 1) / 4 - (y - 1) / 100 + (y - 1) / 400 - 477
}

/// Converts a millisecond timestamp to the year it falls in (UTC), or `None`.
pub fn timestamp_ms_to_year(publish_time_ms: i64) -> (res: Option<String>)
    ensures
        match spec_year_of(publish_time_ms) {
            None => res is None,
            Some(y) => res matches Some(s) && s@ == y,
        },
{
    if publish_time_ms <= 0 {
        return None;
    }
    let days = publish_time_ms / 1000 / 86400;
    if days >= year_start_day_exec(10000) {
        return None;
    }
    let mut y: i64 = 1970;
    assert(year_start_day(1970) == 0);
    while y < 9999 && year_start_day_exec(y + 1) <= days
        invariant
            1970 <= y <= 9999,
            year_start_day(y as int) <= days,
            days < year_start_day(10000),
        decreases 9999 - y,
    {
        y = y + 1;
    }
    assert(is_year_of_day(y as int, days as int));
    proof {
        let c = choose|z: int| z >= 1 && is_year_of_day(z, days as int);
        lemma_year_of_day_unique(c, y as int, days as int);
    }
    Some(i64_to_decimal(y))
}

/// The tags embedded into a downloaded song: title, artist and album as
/// given, the track number when positive, the calendar year of the publish
/// time (see `spec_year_of`), and the duration in seconds when positive (its low
/// 32 bits, as the tag holds a `u32`).
pub fn embed_metadata_after(
    title: &str,
    artist: &str,
    album: &str,
    track_number: i32,
    publish_time_ms: i64,
    duration_secs: i64,
) -> (meta: AudioMetadata)
    ensures
        meta.title matches Some(t) && t@ == title@,
        meta.artist matches Some(a) && a@ == artist@,
        meta.album matches Some(a) && a@ == album@,
        meta.track == (if track_number > 0 { Some(track_number as u32) } else { None }),
        match spec_year_of(publish_time_ms) {
            None => meta.year is None,
            Some(y) => meta.year matches Some(s) && s@ == y,
        },
        meta.duration_secs == (if duration_secs > 0 { Some(duration_secs as u32) } else { None }),
{
    AudioMetadata {
        title: Some(String::from_str(title)),
        artist: Some(String::from_str(artist)),
        album: Some(String::from_str(album)),
        track: if track_number > 0 { Some(track_number as u32) } else { None },
        year: timestamp_ms_to_year(publish_time_ms),
        duration_secs: if duration_secs > 0 { Some(duration_secs as u32) } else { None },
    }
}

/// A tag after a write: the written value when there is one, else the
/// value the file had.
pub open spec fn written_tag<T>(update: Option<T>, current: Option<T>) -> Option<T> {
    match update {
        Some(v) => Some(v),
        None => current,
    }
}

/// The tags of a file after `update` is written over `current`: each tag
/// present in `update` replaces the current one; an absent one keeps it.
pub open spec fn spec_merge_metadata(current: AudioMetadata, update: AudioMetadata) -> AudioMetadata {
    AudioMetadata {
        title: written_tag(update.title, current.title),
        artist: written_tag(update.artist, current.artist),
        album: written_tag(update.album, current.album),
        track: written_tag(update.track, current.track),
        year: written_tag(update.year, current.year),
        duration_secs: written_tag(update.duration_secs, current.duration_secs),
    }
}

/// The tags of a file after `update` is written over `current`.
pub fn merge_metadata(current: AudioMetadata, update: AudioMetadata) -> (res: AudioMetadata)
    ensures
        res == spec_merge_metadata(current, update),
{
    AudioMetadata {
        title: match update.title { Some(v) => Some(v), None => current.title },
        artist: match update.artist { Some(v) => Some(v), None => current.artist },
        album: match update.album { Some(v) => Some(v), None => current.album },
        track: match update.track { Some(v) => Some(v), None => current.track },
        year: match update.year { Some(v) => Some(v), None => current.year },
        duration_secs: match update.duration_secs { Some(v) => Some(v), None => current.duration_secs },
    }
}

/// Writing no tag leaves the tags as they were.
pub proof fn lemma_merge_nothing(current: AudioMetadata)
    ensures
        spec_merge_metadata(
            current,
            AudioMetadata { title: None, artist: None, album: None, track: None, year: None, duration_secs: None },
        ) == current,
{
}

/// Writing the same tags twice gives what writing them once gives, and the
/// written tags are then all present.
pub proof fn lemma_merge_idempotent(current: AudioMetadata, update: AudioMetadata)
    ensures
        spec_merge_metadata(spec_merge_metadata(current, update), update)
            == spec_merge_metadata(current, update),
        update.title is Some ==> spec_merge_metadata(current, update).title == update.title,
{
}

/// Every tag present in the update is the tag after the write, and every
/// tag absent from it keeps its current value.
pub proof fn lemma_merge_written_tags_win(current: AudioMetadata, update: AudioMetadata)
    ensures
        update.title is Some ==> spec_merge_metadata(current, update).title == update.title,
        update.artist is Some ==> spec_merge_metadata(current, update).artist == update.artist,
        update.album is Some ==> spec_merge_metadata(current, update).album == update.album,
        update.track is Some ==> spec_merge_metadata(current, update).track == update.track,
        update.year is Some ==> spec_merge_metadata(current, update).year == update.year,
        update.duration_secs is Some ==> spec_merge_metadata(current, update).duration_secs == update.duration_secs,
        update.title is None ==> spec_merge_metadata(current, update).title == current.title,
        update.artist is None ==> spec_merge_metadata(current, update).artist == current.artist,
        update.album is None ==> spec_merge_metadata(current, update).album == current.album,
        update.track is None ==> spec_merge_metadata(current, update).track == current.track,
        update.year is None ==> spec_merge_metadata(current, update).year == current.year,
        update.duration_secs is None ==> spec_merge_metadata(current, update).duration_secs == current.duration_secs,
{
}

/// What follows `~/` in a path, when the path starts with it (such a path
/// is taken relative to the home directory).
pub open spec fn spec_home_relative(path: Seq<char>) -> Option<Seq<char>> {
    if path.len() >= 2 && path[0] == '~' && path[1] == '/' {
        Some(path.skip(2))
    } else {
        None
    }
}

/// What follows `~/` in a path that starts with it.
pub fn home_relative(path: &str) -> (res: Option<String>)
    ensures
        match spec_home_relative(path@) {
            Some(rest) => res matches Some(r) && r@ == rest,
            None => res is None,
        },
{
    let cs = str_to_chars(path);
    if cs.len() >= 2 && cs[0] == '~' && cs[1] == '/' {
        let mut out: Vec<char> = Vec::new();
        let mut i: usize = 2;
        while i < cs.len()
            invariant
                2 <= i <= cs@.len(),
                out@ == cs@.subrange(2, i as int),
            decreases cs@.len() - i,
        {
            out.push(cs[i]);
            assert(cs@.subrange(2, i as int).push(cs@[i as int]) =~= cs@.subrange(2, i + 1));
            i = i + 1;
        }
        assert(cs@.subrange(2, cs@.len() as int) =~= path@.skip(2));
        Some(string_from_chars(&out))
    } else {
        None
    }
}

/// Whether a cover image is PNG: its path ends with `.png` (otherwise it is
/// taken for JPEG).
pub fn cover_is_png(cover_path: &str) -> (res: bool)
    ensures
        res == spec_ends_with(cover_path@, ".png"@),
{
    ends_with_str(cover_path, ".png")
}

// ---------------------------------------------------------------------------
// Conversion plan
// ---------------------------------------------------------------------------

/// How a file is converted.
pub enum ConversionMode {
    /// Same format: the file is copied and only the tags are embedded.
    CopyOnly,
    /// Decoded and encoded to MP3.
    EncodeMp3,
    /// Decoded and encoded to AAC in an M4A container.
    EncodeM4a,
    /// The output format is not supported.
    Unsupported,
}

/// The conversion of a file whose (lower-case) extension is `input_ext`
/// into `output_format`.
pub fn conversion_mode(input_ext: &str, output_format: &str) -> (res: ConversionMode)
    ensures
        input_ext@ == output_format@ ==> res is CopyOnly,
        input_ext@ != output_format@ && output_format@ == "mp3"@ ==> res is EncodeMp3,
        input_ext@ != output_format@ && output_format@ == "m4a"@ ==> res is EncodeM4a,
        input_ext@ != output_format@ && output_format@ != "mp3"@ && output_format@ != "m4a"@
            ==> res is Unsupported,
{
    proof {
        reveal_strlit("mp3");
        reveal_strlit("m4a");
        assert("mp3"@[1] != "m4a"@[1]);
    }
    if str_eq(input_ext, output_format) {
        ConversionMode::CopyOnly
    } else if str_eq(output_format, "mp3") {
        ConversionMode::EncodeMp3
    } else if str_eq(output_format, "m4a") {
        ConversionMode::EncodeM4a
    } else {
        ConversionMode::Unsupported
    }
}

/// A failed conversion with its message.
pub fn failed_conversion(message: String) -> (res: ConvertResult)
    ensures
        res.output_path@.len() == 0,
        !res.success,
        res.error == Some(message),
{
    ConvertResult { output_path: String::new(), success: false, error: Some(message) }
}

/// The result of a conversion whose input does not exist.
pub fn input_not_found(input_path: &str) -> (res: ConvertResult)
    ensures
        res.output_path@.len() == 0,
        !res.success,
        res.error matches Some(e) && e@ == "Input file not found: "@ + input_path@,
{
    let mut msg = String::from_str("Input file not found: ");
    msg.append(input_path);
    failed_conversion(msg)
}

/// The result of a conversion into a format that is not supported.
pub fn unsupported_format(output_format: &str) -> (res: ConvertResult)
    ensures
        res.output_path@.len() == 0,
        !res.success,
        res.error matches Some(e) && e@ == "Unsupported output format: "@ + output_format@,
{
    let mut msg = String::from_str("Unsupported output format: ");
    msg.append(output_format);
    failed_conversion(msg)
}

/// The result of a conversion that wrote `output_path`.
pub fn converted(output_path: String) -> (res: ConvertResult)
    ensures
        res.output_path == output_path,
        res.success,
        res.error is None,
{
    ConvertResult { output_path, success: true, error: None }
}


// ---------------------------------------------------------------------------
// M4A descriptor patch
// ---------------------------------------------------------------------------

/// The four-character code `esds` stands at `p`.
pub open spec fn is_esds_at(d: Seq<u8>, p: int) -> bool {
    0 <= p && p + 4 <= d.len() && d[p] == 0x65 && d[p + 1] == 0x73 && d[p + 2] == 0x64
        && d[p + 3] == 0x73
}

/// The first `esds` code at or after `from`.
pub open spec fn find_esds(d: Seq<u8>, from: int) -> Option<int>
    decreases d.len() - from,
{
    if from < 0 || from + 4 > d.len() {
        None
    } else if is_esds_at(d, from) {
        Some(from)
    } else {
        find_esds(d, from + 1)
    }
}

/// The big-endian 32-bit value of the four bytes at `p`.
pub open spec fn u32_be_at(d: Seq<u8>, p: int) -> int {
    d[p] as int * 16777216 + d[p + 1] as int * 65536 + d[p + 2] as int * 256 + d[p + 3] as int
}

/// An SLConfig descriptor written with length 0 and reserved content:
/// the bytes `06 00 00` at `i`.
pub open spec fn is_broken_sl_config_at(d: Seq<u8>, i: int) -> bool {
    d[i] == 6 && d[i + 1] == 0 && d[i + 2] == 0
}

/// The last `i` in `lo..hi` where a broken SLConfig descriptor starts.
pub open spec fn last_broken_sl_config(d: Seq<u8>, lo: int, hi: int) -> Option<int>
    decreases hi - lo,
{
    if hi <= lo {
        None
    } else if is_broken_sl_config_at(d, hi - 1) {
        Some(hi - 1)
    } else {
        last_broken_sl_config(d, lo, hi - 1)
    }
}

/// The `esds` box whose code is at `abs`, patched. The box starts with its
/// size (the four bytes before the code) and ends that many bytes after its
/// start; its descriptors follow the code and the four version and flag
/// bytes, 8 bytes after the code. When the box lies inside the data and has
/// room for descriptors, the last broken SLConfig descriptor that lies whole
/// within them gets length 1 and content 2. The flag says whether a byte
/// changed.
pub open spec fn patch_esds_box(d: Seq<u8>, abs: int) -> (Seq<u8>, bool) {
    if abs < 4 {
        (d, false)
    } else {
        let box_end = (abs - 4) + u32_be_at(d, abs - 4);
        let desc_start = abs + 8;
        if box_end <= d.len() && desc_start < box_end {
            match last_broken_sl_config(d, desc_start, box_end - 2) {
                Some(i) => (d.update(i + 1, 1u8).update(i + 2, 2u8), true),
                None => (d, false),
            }
        } else {
            (d, false)
        }
    }
}

/// A broken descriptor found in `lo..hi` lies in that range.
pub proof fn lemma_last_broken_in_range(d: Seq<u8>, lo: int, hi: int)
    ensures
        last_broken_sl_config(d, lo, hi) matches Some(i) ==> lo <= i < hi,
    decreases hi - lo,
{
    if hi > lo && !is_broken_sl_config_at(d, hi - 1) {
        lemma_last_broken_in_range(d, lo, hi - 1);
    }
}

/// Patching one box keeps the length of the data.
pub proof fn lemma_patch_esds_box_len(d: Seq<u8>, abs: int)
    ensures
        patch_esds_box(d, abs).0.len() == d.len(),
{
    if abs >= 4 {
        let box_end = (abs - 4) + u32_be_at(d, abs - 4);
        lemma_last_broken_in_range(d, abs + 8, box_end - 2);
    }
}

/// A found `esds` code lies at or after the search position.
pub proof fn lemma_find_esds(d: Seq<u8>, from: int)
    ensures
        find_esds(d, from) matches Some(p) ==> from <= p && is_esds_at(d, p),
    decreases d.len() - from,
{
    if !(from < 0 || from + 4 > d.len()) && !is_esds_at(d, from) {
        lemma_find_esds(d, from + 1);
    }
}

/// Every `esds` box patched, searching from `start` while at least eight
/// bytes remain from the search position; `modified` records whether a
/// byte changed.
pub open spec fn patch_esds_from(d: Seq<u8>, start: int, modified: bool) -> (Seq<u8>, bool)
    decreases d.len() - start,
{
    if start < 0 || start + 8 > d.len() {
        (d, modified)
    } else {
        match find_esds(d, start) {
            None => (d, modified),
            Some(abs) => {
                proof {
                    lemma_find_esds(d, start);
                    lemma_patch_esds_box_len(d, abs);
                }
                let (d2, m2) = patch_esds_box(d, abs);
                patch_esds_from(d2, abs + 4, modified || m2)
            },
        }
    }
}

/// The M4A data with every broken SLConfig descriptor of its `esds` boxes
/// repaired, and whether anything changed.
pub open spec fn spec_patch_esds(d: Seq<u8>) -> (Seq<u8>, bool) {
    patch_esds_from(d, 0, false)
}

proof fn lemma_patch_esds_from_len(d: Seq<u8>, start: int, modified: bool)
    ensures
        patch_esds_from(d, start, modified).0.len() == d.len(),
    decreases d.len() - start,
{
    if !(start < 0 || start + 8 > d.len()) {
        if let Some(abs) = find_esds(d, start) {
            lemma_find_esds(d, start);
            lemma_patch_esds_box_len(d, abs);
            let (d2, m2) = patch_esds_box(d, abs);
            lemma_patch_esds_from_len(d2, abs + 4, modified || m2);
        }
    }
}

fn find_esds_exec(data: &Vec<u8>, from: usize) -> (res: Option<usize>)
    requires
        from <= data@.len(),
    ensures
        match find_esds(data@, from as int) {
            Some(p) => res == Some(p as usize),
            None => res is None,
        },
{
    let len = data.len();
    let mut p: usize = from;
    while len - p >= 4
        invariant
            from <= p <= len,
            len == data@.len(),
            find_esds(data@, from as int) == find_esds(data@, p as int),
        decreases len - p,
    {
        if data[p] == 0x65 && data[p + 1] == 0x73 && data[p + 2] == 0x64 && data[p + 3] == 0x73 {
            return Some(p);
        }
        p = p + 1;
    }
    None
}

fn patch_esds_box_exec(data: &mut Vec<u8>, abs: usize) -> (changed: bool)
    requires
        4 <= abs,
        abs + 4 <= old(data)@.len(),
        old(data)@.len() + 8 <= usize::MAX,
    ensures
        (final(data)@, changed) == patch_esds_box(old(data)@, abs as int),
        final(data)@.len() == old(data)@.len(),
{
    let len = data.len() as u128;
    let box_size: u128 = data[abs - 4] as u128 * 16777216 + data[abs - 3] as u128 * 65536
        + data[abs - 2] as u128 * 256 + data[abs - 1] as u128;
    let desc_start: u128 = abs as u128 + 8;
    assert(box_size == u32_be_at(data@, abs - 4));
    let box_end: u128 = (abs - 4) as u128 + box_size;
    if box_end <= len && desc_start < box_end {
        let lo = desc_start as usize;
        let hi: usize = (box_end - 2) as usize;
        if hi <= lo {
            return false;
        }
        let mut i: usize = hi;
        while i > lo
            invariant
                lo < hi,
                lo <= i <= hi,
                hi + 2 <= data@.len(),
                hi + 2 <= data.len(),
                data@ == old(data)@,
                lo == abs + 8,
                abs >= 4,
                hi == (abs - 4) + u32_be_at(old(data)@, abs - 4) - 2,
                (abs - 4) + u32_be_at(old(data)@, abs - 4) <= old(data)@.len(),
                last_broken_sl_config(data@, lo as int, hi as int)
                    == last_broken_sl_config(data@, lo as int, i as int),
            decreases i - lo,
        {
            if data[i - 1] == 6 && data[i] == 0 && data[i + 1] == 0 {
                assert(last_broken_sl_config(data@, lo as int, i as int) == Some(i - 1));
                data.set(i, 1);
                data.set(i + 1, 2);
                return true;
            }
            i = i - 1;
        }
        false
    } else {
        false
    }
}

/// Repairs the SLConfig descriptors of the `esds` boxes of an M4A file
/// held in memory, so that strict players read the audio: from the start
/// of the data, while at least eight bytes remain, the next `esds` code is
/// found and, when its box (from its size field, the size given there)
/// lies within the data, the last `06 00 00` in its descriptors becomes
/// `06 01 02`; the search goes on four bytes after the code. Returns whether a byte changed; the length never changes.
pub fn patch_esds_for_apple_compat(data: &mut Vec<u8>) -> (modified: bool)
    requires
        old(data)@.len() + 8 <= usize::MAX,
    ensures
        (final(data)@, modified) == spec_patch_esds(old(data)@),
        final(data)@.len() == old(data)@.len(),
{
    let mut search_start: usize = 0;
    let mut modified = false;
    let len = data.len();
    while search_start + 8 <= len
        invariant
            len == data@.len(),
            len + 8 <= usize::MAX,
            search_start <= len,
            patch_esds_from(data@, search_start as int, modified) == spec_patch_esds(old(data)@),
        decreases len - search_start,
    {
        let found = find_esds_exec(data, search_start);
        if found.is_none() {
            search_start = len;
            continue;
        }
        let abs = found.unwrap();
        proof {
            lemma_find_esds(data@, search_start as int);
        }
        let mut changed = false;
        if abs >= 4 {
            changed = patch_esds_box_exec(data, abs);
        }
        modified = modified || changed;
        search_start = abs + 4;
    }
    proof {
        lemma_patch_esds_from_len(old(data)@, 0, false);
    }
    modified
}

} // verus!
