//! Verified core of a Netease music toolkit: NCM decryption, the eapi request
//! encryption, the reading of Netease API responses, the download quality
//! ladder and the helpers of audio conversion.
use vstd::prelude::*;

pub mod api;
pub mod converter;
pub mod crypto;
pub mod download;
pub mod json;
pub mod ncm;
pub mod payload;
pub mod text;

verus! {

/// A song in a search result, a playlist or an album.
pub struct SongResult {
    pub id: i64,
    pub name: String,
    pub artists: String,
    pub fee: i64,
    pub album: String,
    pub pic_url: String,
}

/// The details of one song, with its lyrics.
pub struct SongDetail {
    pub id: i64,
    pub name: String,
    pub artists: String,
    pub album: String,
    pub pic_url: String,
    /// Duration in seconds.
    pub duration: i64,
    pub track_number: i32,
    /// Publish time in milliseconds since the Unix epoch.
    pub publish_time: i64,
    pub lyric: String,
    pub tlyric: String,
}

/// Where a song can be downloaded from.
pub struct SongUrlResult {
    pub url: String,
    pub size: i64,
    /// The file type the service reports (`mp3`, `flac`, ...).
    pub file_type: String,
    /// The quality level the service granted.
    pub level: String,
}

/// A playlist with its tracks.
pub struct PlaylistResult {
    pub id: i64,
    pub name: String,
    pub cover_img_url: String,
    pub creator: String,
    pub track_count: i32,
    pub description: String,
    pub tracks: Vec<SongResult>,
}

/// An album with its songs.
pub struct AlbumResult {
    pub id: i64,
    pub name: String,
    pub cover_img_url: String,
    pub artist: String,
    pub songs: Vec<SongResult>,
}

/// Progress of one download, as a record.
pub struct DownloadProgress {
    pub song_id: i64,
    pub name: String,
    pub progress: u32,
    pub status: String,
}

/// Progress of one download, as sent to the interface.
pub struct DownloadProgressPayload {
    pub song_id: i64,
    pub progress: u32,
    pub speed: String,
}

/// A login QR code: its key and the PNG image in Base64.
pub struct QrLoginResult {
    pub unikey: String,
    pub qr_image_base64: String,
}

/// A song found in a local directory.
pub struct LocalSongInfo {
    pub name: String,
    pub artists: String,
    pub format: String,
    pub file_size: String,
    pub file_path: String,
    pub has_cover: bool,
    pub has_lyric: bool,
    pub quality: String,
}

/// Progress of one conversion, as sent to the interface.
pub struct ConvertProgressEvent {
    pub file_key: String,
    pub progress: u32,
    pub status: String,
    pub error: Option<String>,
    pub output_path: Option<String>,
}

} // verus!
