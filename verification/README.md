# netease_toolkit

A toolkit for Netease Cloud Music files and downloads: NCM decryption, the
eapi request encryption, reading the Netease API responses, the download
quality ladder, and the decisions of audio conversion and tag embedding.

The library in `src/` is verified with Verus; each public function states
what it returns in its `ensures`.

- `crypto.rs`: AES-128-ECB with PKCS#7 padding (decryption undoes
  encryption), MD5 hex digests, the eapi parameter encryption and the image
  id encryption.
- `ncm.rs`: the NCM container layout, the key box (a permutation of the 256
  byte values that depends only on the 256 key bytes it reads), the audio
  stream cipher (its own inverse), the embedded cover, and the metadata.
- `payload.rs`: the JSON bodies of the eapi requests (song address, QR
  login) and the song list of the song-detail form.
- `json.rs`: the JSON model the response readers work on, and JSON text read
  and written with serde_json.
- `api.rs`: readers of search, song, lyric, playlist, album and QR-login
  responses; login cookies.
- `download.rs`: the quality ladder, its fallback and the step that decides
  after each answer, safe file names, the
  file extension of a download, cookie-jar pairs, progress, local files.
- `converter.rs`: bit rates, sample-rate index, the calendar year of a
  timestamp, the tags of a download and how written tags merge, the
  conversion mode, home-relative paths, and the esds patch for Apple players.
- `text.rs`: string helpers with their specifications.

`app/` is the command-line program around the library: HTTP requests,
files, decoding and encoding audio, and tag I/O.
