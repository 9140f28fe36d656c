//! The decisions of a song download and of the local library: the quality
//! ladder, file names, the cookie set for the download client, progress,
//! and how a local file is described.
use vstd::prelude::*;

use vstd::string::StringExecFns;
use crate::text::{contains_str, spec_before_char, spec_contains, spec_trim, str_eq, str_to_chars, string_from_chars, strings_view, trim};
use crate::{LocalSongInfo, SongUrlResult};

verus! {

// ---------------------------------------------------------------------------
// Quality ladder
// ---------------------------------------------------------------------------

/// The quality levels, from the highest to the lowest.
pub open spec fn quality_ladder() -> Seq<Seq<char>> {
    seq![
        "jymaster"@,
        "jyeffect"@,
        "sky"@,
        "hires"@,
        "lossless"@,
        "exhigh"@,
        "standard"@,
    ]
}

/// The quality level at position `i` of the ladder (0 is the highest).
pub fn quality_at(i: usize) -> (q: &'static str)
    requires
        i < 7,
    ensures
        q@ == quality_ladder()[i as int],
{
    match i {
        0 => "jymaster",
        1 => "jyeffect",
        2 => "sky",
        3 => "hires",
        4 => "lossless",
        5 => "exhigh",
        _ => "standard",
    }
}

/// The position of a quality level in the ladder, if it is one.
pub fn find_quality_index(quality: &str) -> (res: Option<usize>)
    ensures
        match res {
            Some(i) => i < 7 && quality_ladder()[i as int] == quality@
                && forall|j: int| 0 <= j < i ==> quality_ladder()[j] != quality@,
            None => forall|j: int| 0 <= j < 7 ==> quality_ladder()[j] != quality@,
        },
{
    let mut i: usize = 0;
    while i < 7
        invariant
            i <= 7,
            forall|j: int| 0 <= j < i ==> quality_ladder()[j] != quality@,
        decreases 7 - i,
    {
        if str_eq(quality_at(i), quality) {
            return Some(i);
        }
        i = i + 1;
    }
    None
}

/// The quality of a local file for which no download was recorded:
/// `lossless` for a FLAC file, `standard` otherwise.
pub fn infer_quality_from_ext(ext: &str) -> (q: &'static str)
    ensures
        q@ == (if ext@ == "flac"@ { "lossless"@ } else { "standard"@ }),
{
    if str_eq(ext, "flac") {
        "lossless"
    } else {
        "standard"
    }
}

/// The ladder position a download starts from: that of the quality asked
/// for, or the lowest level for a quality that is not on the ladder.
pub open spec fn start_index(quality: Seq<char>) -> int {
    if quality_ladder()[0] == quality {
        0
    } else if quality_ladder()[1] == quality {
        1
    } else if quality_ladder()[2] == quality {
        2
    } else if quality_ladder()[3] == quality {
        3
    } else if quality_ladder()[4] == quality {
        4
    } else if quality_ladder()[5] == quality {
        5
    } else {
        6
    }
}

/// The qualities to ask for, in order. Without fallback, only the quality
/// asked for. With fallback, the ladder from the quality asked for down to
/// the lowest level (only the lowest level for a quality not on the ladder).
pub open spec fn spec_quality_attempts(quality: Seq<char>, fallback: bool) -> Seq<Seq<char>> {
    if !fallback {
        seq![quality]
    } else {
        quality_ladder().skip(start_index(quality))
    }
}

/// The qualities a download tries, in order, until one gives an address.
pub fn quality_attempts(quality: &str, fallback: bool) -> (res: Vec<String>)
    ensures
        strings_view(res@) == spec_quality_attempts(quality@, fallback),
{
    let mut out: Vec<String> = Vec::new();
    if !fallback {
        out.push(String::from_str(quality));
        assert(strings_view(out@) =~= seq![quality@]);
        return out;
    }
    let start: usize = match find_quality_index(quality) {
        Some(i) => i,
        None => 6,
    };
    let mut i: usize = start;
    while i < 7
        invariant
            start <= i <= 7,
            start == start_index(quality@),
            strings_view(out@) == quality_ladder().subrange(start as int, i as int),
        decreases 7 - i,
    {
        let ghost before = out@;
        out.push(String::from_str(quality_at(i)));
        assert(strings_view(out@) =~= strings_view(before).push(quality_ladder()[i as int]));
        assert(quality_ladder().subrange(start as int, i as int).push(quality_ladder()[i as int])
            =~= quality_ladder().subrange(start as int, i + 1));
        i = i + 1;
    }
    assert(quality_ladder().subrange(start as int, 7) =~= quality_ladder().skip(start as int));
    out
}

/// What to do after the address of one quality was asked for.
pub enum QualityStep {
    /// The answer has an address: download from it.
    Use,
    /// Ask for the quality at this position of the attempts.
    TryNext(usize),
    /// No quality is left: the download fails with this message.
    Fail(String),
}

/// Whether an answer to a song-address request gives an address.
pub open spec fn has_address(answer: Result<SongUrlResult, String>) -> bool {
    answer matches Ok(u) && u.url@.len() > 0
}

/// The decision after the answer for attempt `attempt` of `attempts`
/// qualities (see `quality_attempts`): an answer with an address is used;
/// otherwise the next quality is asked for, and after the last one the
/// download fails with `No available quality found for this song`.
pub fn quality_step(attempt: usize, attempts: usize, answer: &Result<SongUrlResult, String>) -> (res: QualityStep)
    requires
        attempt < attempts,
    ensures
        has_address(*answer) ==> res is Use,
        !has_address(*answer) && attempt + 1 < attempts ==> (res matches QualityStep::TryNext(n)
            && n == attempt + 1),
        !has_address(*answer) && attempt + 1 == attempts ==> (res matches QualityStep::Fail(m)
            && m@ == "No available quality found for this song"@),
{
    let usable = match answer {
        Ok(u) => str_to_chars(u.url.as_str()).len() > 0,
        Err(_) => false,
    };
    if usable {
        QualityStep::Use
    } else if attempt + 1 < attempts {
        QualityStep::TryNext(attempt + 1)
    } else {
        QualityStep::Fail(String::from_str("No available quality found for this song"))
    }
}

/// With fallback, each quality tried after the first is lower on the
/// ladder than the one before it, and the last one is `standard`.
pub proof fn lemma_fallback_goes_down(quality: Seq<char>)
    ensures
        spec_quality_attempts(quality, true).len() >= 1,
        spec_quality_attempts(quality, true).last() == "standard"@,
        forall|k: int| 0 < k < spec_quality_attempts(quality, true).len() ==>
            #[trigger] spec_quality_attempts(quality, true)[k]
                == quality_ladder()[start_index(quality) + k],
{
    let s = start_index(quality);
    assert(0 <= s < 7);
}

// ---------------------------------------------------------------------------
// File names
// ---------------------------------------------------------------------------

/// A character that cannot stand in a file name on some system.
pub open spec fn is_forbidden_file_char(c: char) -> bool {
    c == '/' || c == '\\' || c == ':' || c == '*' || c == '?' || c == '"' || c == '<' || c == '>'
        || c == '|'
}

/// The name with every forbidden character replaced by `_`.
pub open spec fn spec_safe_file_name(name: Seq<char>) -> Seq<char> {
    Seq::new(name.len(), |i: int| if is_forbidden_file_char(name[i]) { '_' } else { name[i] })
}

/// Making a name safe changes only the forbidden characters: each becomes
/// `_`, and every other character stays in its place.
pub proof fn lemma_safe_file_name_keeps_other_chars(name: Seq<char>)
    ensures
        spec_safe_file_name(name).len() == name.len(),
        forall|i: int| 0 <= i < name.len() && !is_forbidden_file_char(name[i])
            ==> #[trigger] spec_safe_file_name(name)[i] == name[i],
        forall|i: int| 0 <= i < name.len() && is_forbidden_file_char(name[i])
            ==> #[trigger] spec_safe_file_name(name)[i] == '_',
{
}

/// A song name made safe as a file name: `/ \ : * ? " < > |` become `_`.
pub fn safe_file_name(name: &str) -> (res: String)
    ensures
        res@ == spec_safe_file_name(name@),
        res@.len() == name@.len(),
        forall|i: int| 0 <= i < res@.len() ==> !is_forbidden_file_char(#[trigger] res@[i]),
{
    let cs = str_to_chars(name);
    let mut out: Vec<char> = Vec::new();
    let mut i: usize = 0;
    while i < cs.len()
        invariant
            i <= cs@.len(),
            cs@ == name@,
            out@ == spec_safe_file_name(name@).take(i as int),
        decreases cs@.len() - i,
    {
        let c = cs[i];
        let forbidden = c == '/' || c == '\\' || c == ':' || c == '*' || c == '?' || c == '"'
            || c == '<' || c == '>' || c == '|';
        let d = if forbidden { '_' } else { c };
        out.push(d);
        assert(spec_safe_file_name(name@).take(i as int).push(d)
            =~= spec_safe_file_name(name@).take(i + 1));
        i = i + 1;
    }
    assert(spec_safe_file_name(name@).take(i as int) =~= spec_safe_file_name(name@));
    string_from_chars(&out)
}

/// The file extension of a download from the type the service reports:
/// `flac` when the type mentions `flac`, else `m4a` when it mentions `m4a`,
/// else `mp3`.
pub open spec fn spec_audio_ext(file_type: Seq<char>) -> Seq<char> {
    if spec_contains(file_type, "flac"@) {
        "flac"@
    } else if spec_contains(file_type, "m4a"@) {
        "m4a"@
    } else {
        "mp3"@
    }
}

/// The file extension of a download from the type the service reports.
pub fn audio_ext_for_type(file_type: &str) -> (res: &'static str)
    ensures
        res@ == spec_audio_ext(file_type@),
{
    if contains_str(file_type, "flac") {
        "flac"
    } else if contains_str(file_type, "m4a") {
        "m4a"
    } else {
        "mp3"
    }
}

// ---------------------------------------------------------------------------
// Cookies of the download client
// ---------------------------------------------------------------------------

/// The pieces of `s` between the separators, in order (`str::split`).
pub open spec fn spec_split(s: Seq<char>, sep: char) -> Seq<Seq<char>>
    decreases s.len(),
{
    let first = spec_before_char(s, sep);
    if first.len() >= s.len() {
        seq![s]
    } else {
        seq![first] + spec_split(s.skip(first.len() + 1int), sep)
    }
}

/// The part before the first separator is a prefix free of separators,
/// followed by a separator unless it is the whole text.
pub proof fn lemma_before_char(s: Seq<char>, sep: char)
    ensures
        spec_before_char(s, sep).len() <= s.len(),
        spec_before_char(s, sep) == s.take(spec_before_char(s, sep).len() as int),
        spec_before_char(s, sep).len() < s.len() ==> s[spec_before_char(s, sep).len() as int] == sep,
        forall|i: int| 0 <= i < spec_before_char(s, sep).len() ==> s[i] != sep,
    decreases s.len(),
{
    if s.len() > 0 && s[0] != sep {
        lemma_before_char(s.skip(1), sep);
        let r = spec_before_char(s.skip(1), sep);
        assert(spec_before_char(s, sep) == seq![s[0]] + r);
        assert(seq![s[0]] + r =~= s.take(r.len() + 1int));
        assert forall|i: int| 0 <= i < r.len() + 1 implies s[i] != sep by {
            if i > 0 {
                assert(s.skip(1)[i - 1] == s[i]);
            }
        }
    } else {
        assert(s.take(0) =~= Seq::<char>::empty());
    }
}

/// A text free of separators, followed by a separator, is the first piece.
proof fn lemma_before_char_concat(cur: Seq<char>, rest: Seq<char>, sep: char)
    requires
        forall|i: int| 0 <= i < cur.len() ==> cur[i] != sep,
        rest.len() > 0,
        rest[0] == sep,
    ensures
        spec_before_char(cur + rest, sep) == cur,
    decreases cur.len(),
{
    if cur.len() == 0 {
        assert(cur + rest =~= rest);
    } else {
        assert((cur + rest).skip(1) =~= cur.skip(1) + rest);
        lemma_before_char_concat(cur.skip(1), rest, sep);
        assert(seq![cur[0]] + cur.skip(1) =~= cur);
    }
}

/// A text free of separators is one piece.
proof fn lemma_split_no_sep(cur: Seq<char>, sep: char)
    requires
        forall|i: int| 0 <= i < cur.len() ==> cur[i] != sep,
    ensures
        spec_split(cur, sep) == seq![cur],
{
    lemma_before_char(cur, sep);
    let first = spec_before_char(cur, sep);
    if first.len() < cur.len() {
        assert(cur[first.len() as int] == sep);
    }
}

/// Splits `s` at each `sep`.
pub fn split_char(s: &str, sep: char) -> (res: Vec<String>)
    ensures
        strings_view(res@) == spec_split(s@, sep),
{
    let cs = str_to_chars(s);
    let mut out: Vec<String> = Vec::new();
    let mut cur: Vec<char> = Vec::new();
    let mut i: usize = 0;
    assert(cur@ + cs@.skip(0) =~= cs@);
    assert(strings_view(out@) + spec_split(cs@, sep) =~= spec_split(cs@, sep));
    while i < cs.len()
        invariant
            i <= cs@.len(),
            cs@ == s@,
            forall|k: int| 0 <= k < cur@.len() ==> cur@[k] != sep,
            strings_view(out@) + spec_split(cur@ + cs@.skip(i as int), sep) == spec_split(cs@, sep),
        decreases cs@.len() - i,
    {
        let c = cs[i];
        let ghost rest = cs@.skip(i as int);
        if c == sep {
            proof {
                lemma_before_char_concat(cur@, rest, sep);
                let t = cur@ + rest;
                assert(t.skip(cur@.len() + 1int) =~= cs@.skip(i + 1));
                assert(Seq::<char>::empty() + cs@.skip(i + 1) =~= cs@.skip(i + 1));
            }
            let ghost before = out@;
            let ghost curv = cur@;
            out.push(string_from_chars(&cur));
            cur = Vec::new();
            assert(strings_view(out@) =~= strings_view(before).push(curv));
            assert(strings_view(before) + (seq![curv] + spec_split(cur@ + cs@.skip(i + 1), sep))
                =~= strings_view(out@) + spec_split(cur@ + cs@.skip(i + 1), sep));
        } else {
            let ghost oldcur = cur@;
            cur.push(c);
            assert(oldcur + rest =~= cur@ + cs@.skip(i + 1));
        }
        i = i + 1;
    }
    proof {
        lemma_split_no_sep(cur@, sep);
        assert(cur@ + cs@.skip(i as int) =~= cur@);
    }
    let ghost before = out@;
    let ghost curv = cur@;
    out.push(string_from_chars(&cur));
    assert(strings_view(out@) =~= strings_view(before) + seq![curv]);
    out
}

/// A cookie pair handed to the download client: a trimmed piece that is not
/// empty and holds `=`.
pub open spec fn is_jar_pair(kv: Seq<char>) -> bool {
    kv.len() > 0 && spec_contains(kv, "="@)
}

/// The cookie pairs of a saved cookie, in order: its `;`-separated pieces,
/// trimmed, that are cookie pairs.
pub open spec fn spec_jar_pairs(pieces: Seq<Seq<char>>) -> Seq<Seq<char>>
    decreases pieces.len(),
{
    if pieces.len() == 0 {
        Seq::empty()
    } else {
        let rest = spec_jar_pairs(pieces.drop_last());
        let kv = spec_trim(pieces.last());
        if is_jar_pair(kv) {
            rest.push(kv)
        } else {
            rest
        }
    }
}

/// The cookie pairs of a saved cookie that the download client is given
/// (each is set for `.music.163.com` and `.music.126.net`).
pub fn cookie_jar_pairs(cookie: &str) -> (res: Vec<String>)
    ensures
        strings_view(res@) == spec_jar_pairs(spec_split(cookie@, ';')),
{
    let pieces = split_char(cookie, ';');
    let mut out: Vec<String> = Vec::new();
    let mut i: usize = 0;
    while i < pieces.len()
        invariant
            i <= pieces@.len(),
            strings_view(pieces@) == spec_split(cookie@, ';'),
            strings_view(out@) == spec_jar_pairs(strings_view(pieces@).take(i as int)),
        decreases pieces@.len() - i,
    {
        let ghost pv = strings_view(pieces@).take(i + 1);
        assert(pv.drop_last() =~= strings_view(pieces@).take(i as int));
        assert(pv.last() == pieces@[i as int]@);
        let kv = trim(pieces[i].as_str());
        if !kv.as_str().is_empty() && contains_str(kv.as_str(), "=") {
            let ghost before = out@;
            let ghost kvv = kv@;
            out.push(kv);
            assert(strings_view(out@) =~= strings_view(before).push(kvv));
        }
        i = i + 1;
    }
    assert(strings_view(pieces@).take(pieces@.len() as int) =~= strings_view(pieces@));
    out
}

// ---------------------------------------------------------------------------
// Progress and local files
// ---------------------------------------------------------------------------

/// The percentage of a download: the bytes received per hundred of the
/// expected size (taken as at least 1), at most 100.
pub open spec fn spec_download_progress(downloaded: u64, size: i64) -> int {
    let total: int = if size < 1 { 1 } else { size as int };
    let p = (downloaded as int * 100) / total;
    if p > 100 {
        100
    } else {
        p
    }
}

/// The percentage of a download.
pub fn download_progress(downloaded: u64, size: i64) -> (res: u32)
    requires
        downloaded as int * 100 <= u64::MAX,
    ensures
        res as int == spec_download_progress(downloaded, size),
        res <= 100,
{
    let total: u64 = if size < 1 { 1 } else { size as u64 };
    let p: u64 = (downloaded * 100) / total;
    if p > 100 {
        100
    } else {
        p as u32
    }
}

/// Whether a file extension (in lower case) is an audio format the library
/// lists: `mp3`, `flac` or `m4a`.
pub fn is_supported_audio_ext(ext: &str) -> (res: bool)
    ensures
        res == (ext@ == "mp3"@ || ext@ == "flac"@ || ext@ == "m4a"@),
{
    str_eq(ext, "mp3") || str_eq(ext, "flac") || str_eq(ext, "m4a")
}

/// How a local audio file is described: its title tag or else its file
/// stem as the name, its artist tag or else nothing, and the quality its
/// download was recorded with or else the one its extension suggests.
pub fn local_song_info(
    file_stem: &str,
    ext: &str,
    file_size: String,
    file_path: String,
    has_cover: bool,
    has_lyric: bool,
    recorded_quality: Option<String>,
    title: Option<String>,
    artist: Option<String>,
) -> (res: LocalSongInfo)
    ensures
        res.name@ == (match title {
            Some(t) => t@,
            None => file_stem@,
        }),
        res.artists@ == (match artist {
            Some(a) => a@,
            None => Seq::<char>::empty(),
        }),
        res.format@ == ext@,
        res.file_size == file_size,
        res.file_path == file_path,
        res.has_cover == has_cover,
        res.has_lyric == has_lyric,
        res.quality@ == (match recorded_quality {
            Some(q) => q@,
            None => if ext@ == "flac"@ { "lossless"@ } else { "standard"@ },
        }),
{
    let name = match title {
        Some(t) => t,
        None => String::from_str(file_stem),
    };
    let artists = match artist {
        Some(a) => a,
        None => String::new(),
    };
    let quality = match recorded_quality {
        Some(q) => q,
        None => String::from_str(infer_quality_from_ext(ext)),
    };
    LocalSongInfo {
        name,
        artists,
        format: String::from_str(ext),
        file_size,
        file_path,
        has_cover,
        has_lyric,
        quality,
    }
}


/// The first `n` characters of `s` (all of it when shorter).
pub open spec fn spec_prefix(s: Seq<char>, n: int) -> Seq<char> {
    if s.len() <= n {
        s
    } else {
        s.take(n)
    }
}

/// The error of a download answered with a failing HTTP status: the status
/// text and at most the first 200 characters of the response body.
pub fn download_http_error(status: &str, body: &str) -> (res: String)
    ensures
        res@ == "Download returned HTTP "@ + status@ + ": "@ + spec_prefix(body@, 200),
{
    let cs = str_to_chars(body);
    let mut head: Vec<char> = Vec::new();
    let mut i: usize = 0;
    while i < cs.len() && i < 200
        invariant
            i <= cs@.len(),
            i <= 200,
            head@ == cs@.take(i as int),
        decreases cs@.len() - i,
    {
        head.push(cs[i]);
        assert(cs@.take(i as int).push(cs@[i as int]) =~= cs@.take(i + 1));
        i = i + 1;
    }
    if cs.len() <= 200 {
        assert(cs@.take(cs@.len() as int) =~= cs@);
    }
    let head_text = string_from_chars(&head);
    let mut msg = String::from_str("Download returned HTTP ");
    msg.append(status);
    msg.append(": ");
    msg.append(head_text.as_str());
    msg
}

} // verus!
