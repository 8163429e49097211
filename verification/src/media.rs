//! What a media file is, from what `ffprobe` reports of it, and the material
//! references a draft makes of it.
//!
//! Running `ffprobe` and reading its JSON happens outside; the report comes
//! in as a [`ProbeOutput`] whose durations are already in microseconds.

use vstd::prelude::*;
use crate::chars::{ascii_lower, contains, parse_u64, parse_u64_vec};
use crate::model::MaterialKind;
use crate::text::{chars_of, str_eq};

verus! {

/// The kind of a media file.
#[derive(Debug, Clone, Copy, PartialEq, Eq)]
pub enum MediaKind {
    Video,
    Photo,
    Audio,
}

/// What a probe found out about a media file.
#[derive(Debug, Clone, Copy, PartialEq, Eq)]
pub struct MediaInfo {
    pub kind: MediaKind,
    /// Duration in microseconds.
    pub duration_us: Option<u64>,
    pub width: Option<u32>,
    pub height: Option<u32>,
    pub sample_rate: Option<u32>,
}

/// One stream of an `ffprobe` report.
#[derive(Debug, Clone, PartialEq, Eq)]
pub struct ProbeStream {
    /// `video`, `audio`, ...
    pub codec_type: Option<String>,
    /// The stream's duration in microseconds, when it gave one that reads
    /// as a number.
    pub duration_us: Option<u64>,
    pub width: Option<u32>,
    pub height: Option<u32>,
    pub sample_rate: Option<String>,
    /// `0/0` for a still image.
    pub avg_frame_rate: Option<String>,
}

/// An `ffprobe` report.
#[derive(Debug, Clone, PartialEq, Eq)]
pub struct ProbeOutput {
    pub streams: Option<Vec<ProbeStream>>,
    /// The container's duration in microseconds, when it gave one that
    /// reads as a number.
    pub format_duration_us: Option<u64>,
}

/// Why a media file could not be probed or turned into a material.
#[derive(Debug, Clone, PartialEq, Eq)]
pub enum MediaError {
    FileNotFound(String),
    /// `ffprobe` is not installed.
    FfprobeNotFound,
    /// `ffprobe` failed, with this message.
    FfprobeFailed(String),
    /// The file holds no video, image or audio stream.
    UnsupportedFormat(String),
    /// A video material was asked of an audio file.
    NoVideoStream(String),
    /// An audio material was asked of a file that is not audio.
    NoAudioStream(String),
    /// The report could not be read, with this message.
    JsonError(String),
    /// A file operation failed, with this message.
    IoError(String),
}

/// The stream is of codec type `k`.
pub open spec fn is_kind(s: ProbeStream, k: Seq<char>) -> bool {
    s.codec_type matches Some(c) && c@ == k
}

/// The index of the first stream of codec type `k`; the stream count when
/// there is none.
pub open spec fn first_index(streams: Seq<ProbeStream>, k: Seq<char>) -> int
    decreases streams.len(),
{
    if streams.len() == 0 {
        0
    } else if is_kind(streams[0], k) {
        0
    } else {
        1 + first_index(streams.drop_first(), k)
    }
}

/// Some video stream has the frame rate `0/0` of a still image.
pub open spec fn has_still_stream(streams: Seq<ProbeStream>) -> bool {
    exists|i: int| 0 <= i < streams.len() && is_kind(#[trigger] streams[i], "video"@)
        && (streams[i].avg_frame_rate matches Some(r) && r@ == "0/0"@)
}

/// An extension (lower case) that marks an image.
pub open spec fn is_image_extension(e: Seq<char>) -> bool {
    e == "jpg"@ || e == "jpeg"@ || e == "png"@ || e == "bmp"@ || e == "webp"@ || e == "tiff"@ || e == "tif"@
}

/// What `u32::from_str` reads.
pub open spec fn parse_u32(s: Seq<char>) -> Option<u32> {
    match parse_u64(s) {
        Some(v) => if v <= u32::MAX { Some(v as u32) } else { None },
        None => None,
    }
}

/// The media info a probe report gives, `ext` being the file's extension in
/// lower case: an image extension makes a photo; a video stream that is not
/// a still makes a video; a still makes a photo; an audio stream makes an
/// audio file; anything else is not supported (`None`). A duration comes
/// from the stream, else from the container; photos last `photo_duration`.
pub open spec fn spec_classify(ext: Seq<char>, streams: Seq<ProbeStream>, format_duration: Option<u64>, photo_duration: u64) -> Option<MediaInfo> {
    let vi = first_index(streams, "video"@);
    let ai = first_index(streams, "audio"@);
    let has_video = vi < streams.len();
    let has_audio = ai < streams.len();
    let still = has_still_stream(streams);
    let width = if has_video { streams[vi].width } else { None };
    let height = if has_video { streams[vi].height } else { None };
    if is_image_extension(ext) {
        Some(MediaInfo { kind: MediaKind::Photo, duration_us: Some(photo_duration), width, height, sample_rate: None })
    } else if has_video && !still {
        let d = match streams[vi].duration_us {
            Some(d) => Some(d),
            None => format_duration,
        };
        Some(MediaInfo { kind: MediaKind::Video, duration_us: d, width, height, sample_rate: None })
    } else if still {
        Some(MediaInfo { kind: MediaKind::Photo, duration_us: Some(photo_duration), width, height, sample_rate: None })
    } else if has_audio {
        let d = match streams[ai].duration_us {
            Some(d) => Some(d),
            None => format_duration,
        };
        let rate = match streams[ai].sample_rate {
            Some(r) => parse_u32(r@),
            None => None,
        };
        Some(MediaInfo { kind: MediaKind::Audio, duration_us: d, width: None, height: None, sample_rate: rate })
    } else {
        None
    }
}

proof fn lemma_first_index_bounds(streams: Seq<ProbeStream>, k: Seq<char>)
    ensures
        0 <= first_index(streams, k) <= streams.len(),
        first_index(streams, k) < streams.len() ==> is_kind(streams[first_index(streams, k)], k),
        forall|j: int| 0 <= j < first_index(streams, k) ==> !is_kind(#[trigger] streams[j], k),
    decreases streams.len(),
{
    if streams.len() > 0 && !is_kind(streams[0], k) {
        let t = streams.drop_first();
        lemma_first_index_bounds(t, k);
        assert forall|j: int| 0 <= j < first_index(streams, k) implies !is_kind(#[trigger] streams[j], k) by {
            if j > 0 {
                assert(streams[j] == t[j - 1]);
            }
        }
    }
}

proof fn lemma_first_index_is(streams: Seq<ProbeStream>, k: Seq<char>, i: int)
    requires
        0 <= i <= streams.len(),
        forall|j: int| 0 <= j < i ==> !is_kind(#[trigger] streams[j], k),
        i < streams.len() ==> is_kind(streams[i], k),
    ensures
        first_index(streams, k) == i,
    decreases streams.len(),
{
    if streams.len() > 0 && i > 0 {
        let t = streams.drop_first();
        assert(!is_kind(streams[0], k));
        assert forall|j: int| 0 <= j < i - 1 implies !is_kind(#[trigger] t[j], k) by {
            assert(t[j] == streams[j + 1]);
        }
        if i - 1 < t.len() {
            assert(t[i - 1] == streams[i]);
        }
        lemma_first_index_is(t, k, i - 1);
    }
}

fn stream_is(s: &ProbeStream, k: &str) -> (r: bool)
    ensures
        r == is_kind(*s, k@),
{
    match &s.codec_type {
        Some(c) => str_eq(c.as_str(), k),
        None => false,
    }
}

fn find_stream(streams: &Vec<ProbeStream>, k: &str) -> (r: usize)
    ensures
        r == first_index(streams@, k@),
{
    let mut i: usize = 0;
    while i < streams.len()
        invariant
            i <= streams.len(),
            forall|j: int| 0 <= j < i ==> !is_kind(#[trigger] streams@[j], k@),
        decreases streams.len() - i,
    {
        if stream_is(&streams[i], k) {
            proof {
                lemma_first_index_is(streams@, k@, i as int);
            }
            return i;
        }
        i += 1;
    }
    proof {
        lemma_first_index_is(streams@, k@, i as int);
    }
    i
}

fn parse_u32_str(s: &str) -> (r: Option<u32>)
    ensures
        r == parse_u32(s@),
{
    let v = chars_of(s);
    match parse_u64_vec(&v) {
        Some(n) => if n <= 4294967295u64 { Some(n as u32) } else { None },
        None => None,
    }
}

/// Classifies a probed media file (see [`spec_classify`]); `ext` is its
/// extension in lower case, `None` when unsupported.
pub fn classify_probe(ext: &str, probe: &ProbeOutput, photo_duration_us: u64) -> (r: Option<MediaInfo>)
    ensures
        r == spec_classify(ext@, match probe.streams { Some(s) => s@, None => Seq::empty() }, probe.format_duration_us, photo_duration_us),
{
    let empty: Vec<ProbeStream> = Vec::new();
    let streams: &Vec<ProbeStream> = match &probe.streams {
        Some(s) => s,
        None => &empty,
    };
    assert(empty@ =~= Seq::<ProbeStream>::empty());
    let vi = find_stream(streams, "video");
    let ai = find_stream(streams, "audio");
    proof {
        lemma_first_index_bounds(streams@, "video"@);
        lemma_first_index_bounds(streams@, "audio"@);
    }
    let mut still = false;
    let mut i: usize = 0;
    while i < streams.len()
        invariant
            i <= streams.len(),
            still == exists|j: int| 0 <= j < i && is_kind(#[trigger] streams@[j], "video"@)
                && (streams@[j].avg_frame_rate matches Some(r) && r@ == "0/0"@),
        decreases streams.len() - i,
    {
        if stream_is(&streams[i], "video") {
            match &streams[i].avg_frame_rate {
                Some(r) => if str_eq(r.as_str(), "0/0") {
                    still = true;
                },
                None => {},
            }
        }
        i += 1;
    }
    let has_video = vi < streams.len();
    let has_audio = ai < streams.len();
    let width = if has_video { streams[vi].width } else { None };
    let height = if has_video { streams[vi].height } else { None };
    let image_ext = str_eq(ext, "jpg") || str_eq(ext, "jpeg") || str_eq(ext, "png") || str_eq(ext, "bmp")
        || str_eq(ext, "webp") || str_eq(ext, "tiff") || str_eq(ext, "tif");
    if image_ext {
        Some(MediaInfo { kind: MediaKind::Photo, duration_us: Some(photo_duration_us), width, height, sample_rate: None })
    } else if has_video && !still {
        let d = match streams[vi].duration_us {
            Some(d) => Some(d),
            None => probe.format_duration_us,
        };
        Some(MediaInfo { kind: MediaKind::Video, duration_us: d, width, height, sample_rate: None })
    } else if still {
        Some(MediaInfo { kind: MediaKind::Photo, duration_us: Some(photo_duration_us), width, height, sample_rate: None })
    } else if has_audio {
        let d = match streams[ai].duration_us {
            Some(d) => Some(d),
            None => probe.format_duration_us,
        };
        let rate = match &streams[ai].sample_rate {
            Some(r) => parse_u32_str(r.as_str()),
            None => None,
        };
        Some(MediaInfo { kind: MediaKind::Audio, duration_us: d, width: None, height: None, sample_rate: rate })
    } else {
        None
    }
}

/// What `str::to_lowercase` makes of a text: each character replaced by its
/// Unicode lower-case form.
pub uninterp spec fn lowercase(s: Seq<char>) -> Seq<char>;

/// Every character of `s` is ASCII.
pub open spec fn is_ascii_text(s: Seq<char>) -> bool {
    forall|i: int| 0 <= i < s.len() ==> (#[trigger] s[i]) as u32 <= 127
}

/// `s` with its ASCII capitals made small.
pub open spec fn ascii_lower_text(s: Seq<char>) -> Seq<char> {
    s.map_values(|c: char| ascii_lower(c))
}

/// Lower-cases a text.
///
/// Trusted: calls `str::to_lowercase`; its result is named [`lowercase`].
/// For an ASCII text the Unicode lower-case mapping std documents is the
/// ASCII one (`A`..`Z` to `a`..`z`, every other character kept), and the
/// contract states that; of other texts nothing more is claimed.
#[verifier::external_body]
fn to_lowercase(s: &str) -> (r: String)
    ensures
        r@ == lowercase(s@),
        is_ascii_text(s@) ==> r@ == ascii_lower_text(s@),
{
    s.to_lowercase()
}

/// An extension the platform may find in `path`: none (read as empty), or
/// a text without `.` or `/` that follows a `.` somewhere in the path.
pub open spec fn extension_sound(path: Seq<char>, ext: Option<Seq<char>>) -> bool {
    ext matches Some(e) ==> !e.contains('.') && !e.contains('/') && contains(path, seq!['.'] + e)
}

/// A path every platform splits the same way: it holds no `\\` and no `:`
/// (so no Windows prefix and no other separator than `/`), and does not
/// begin with two `/` (which Windows reads as a network prefix).
pub open spec fn plain_path(p: Seq<char>) -> bool {
    !p.contains('\\') && !p.contains(':') && !(p.len() >= 2 && p[0] == '/' && p[1] == '/')
}

/// The index of the last `c` in `s`, -1 when there is none.
pub open spec fn last_index_of(s: Seq<char>, c: char) -> int
    decreases s.len(),
{
    if s.len() == 0 {
        -1
    } else if s.last() == c {
        s.len() - 1
    } else {
        last_index_of(s.drop_last(), c)
    }
}

/// The file name of a plain path: its last piece between `/`s that is
/// neither empty nor `.`; none when there is no such piece or it is `..`.
pub open spec fn plain_file_name(p: Seq<char>) -> Option<Seq<char>>
    decreases p.len(),
{
    let i = last_index_of(p, '/');
    let piece = p.subrange(i + 1, p.len() as int);
    if piece.len() == 0 || piece == seq!['.'] {
        if 0 <= i < p.len() {
            plain_file_name(p.subrange(0, i))
        } else {
            None
        }
    } else if piece == seq!['.', '.'] {
        None
    } else {
        Some(piece)
    }
}

/// The extension of a plain path: what follows the last `.` of its file
/// name, none when the name holds no `.` or only a leading one.
pub open spec fn plain_extension(p: Seq<char>) -> Option<Seq<char>> {
    match plain_file_name(p) {
        Some(n) => {
            let d = last_index_of(n, '.');
            if d <= 0 {
                None
            } else {
                Some(n.subrange(d + 1, n.len() as int))
            }
        },
        None => None,
    }
}

/// The extension of a path.
///
/// Trusted: calls `camino::Utf8Path::extension`, which defers to
/// `std::path::Path::extension`: the part of the path's file name (its last
/// component when that is a normal one, `.` components and trailing
/// separators skipped) after its last `.`, none when there is no file name,
/// when the name holds no `.`, or only a leading one. For a plain path
/// ([`plain_path`]) every platform splits components at `/` alone, so the
/// contract states the extension exactly there ([`plain_extension`]); for
/// any path it states that the extension holds neither `.` nor `/` and
/// follows a `.` in the path.
#[verifier::external_body]
fn path_extension(path: &str) -> (r: Option<String>)
    ensures
        extension_sound(path@, match r { Some(e) => Some(e@), None => None }),
        plain_path(path@) ==> match r { Some(e) => Some(e@), None => None } == plain_extension(path@),
{
    camino::Utf8Path::new(path).extension().map(|e| e.to_string())
}

/// The streams of a report, none when it lists none.
pub open spec fn report_streams(probe: ProbeOutput) -> Seq<ProbeStream> {
    match probe.streams {
        Some(s) => s@,
        None => Seq::empty(),
    }
}

impl MediaInfo {
    /// The media info of the file at `path` from its probe report: see
    /// [`spec_classify`], with the path's extension in lower case (empty
    /// when it has none). A file with no video, image or audio stream is
    /// unsupported. Photos last `photo_duration_us`.
    pub fn from_probe(path: &str, probe: &ProbeOutput, photo_duration_us: u64) -> (r: Result<MediaInfo, MediaError>)
        ensures
            exists|ext: Option<Seq<char>>| #[trigger] extension_sound(path@, ext) && {
                let e = match ext { Some(e) => lowercase(e), None => lowercase(Seq::empty()) };
                match spec_classify(e, report_streams(*probe), probe.format_duration_us, photo_duration_us) {
                    Some(info) => r == Ok::<MediaInfo, MediaError>(info),
                    None => r matches Err(MediaError::UnsupportedFormat(p)) && p@ == path@,
                }
            },
            plain_path(path@) ==> {
                let e = match plain_extension(path@) { Some(e) => lowercase(e), None => lowercase(Seq::empty()) };
                match spec_classify(e, report_streams(*probe), probe.format_duration_us, photo_duration_us) {
                    Some(info) => r == Ok::<MediaInfo, MediaError>(info),
                    None => r matches Err(MediaError::UnsupportedFormat(p)) && p@ == path@,
                }
            },
            // An image extension makes a photo, whatever the streams.
            plain_path(path@) ==> (plain_extension(path@) matches Some(e) && is_ascii_text(e)
                && is_image_extension(ascii_lower_text(e)) ==> (r matches Ok(info) && info.kind == MediaKind::Photo
                && info.duration_us == Some(photo_duration_us))),
    {
        let ext = path_extension(path);
        let ghost ev: Option<Seq<char>> = match &ext { Some(e) => Some(e@), None => None };
        let lower = match &ext {
            Some(e) => to_lowercase(e.as_str()),
            None => to_lowercase(""),
        };
        proof {
            reveal_strlit("");
        }
        assert(""@ =~= Seq::<char>::empty());
        assert(extension_sound(path@, ev));
        match classify_probe(lower.as_str(), probe, photo_duration_us) {
            Some(info) => Ok(info),
            None => Err(MediaError::UnsupportedFormat(path.to_string())),
        }
    }
}

/// A file name the platform may find in `path`: non-empty, without `/`,
/// and a part of the path.
pub open spec fn file_name_sound(path: Seq<char>, name: Option<Seq<char>>) -> bool {
    name matches Some(n) ==> n.len() > 0 && !n.contains('/') && contains(path, n)
}

/// The file name of a path.
///
/// Trusted: calls `camino::Utf8Path::file_name`, which defers to
/// `std::path::Path::file_name`: the path's last component when it is a
/// normal one (`.` components and trailing separators skipped), none when
/// it is `..` or there is none. For a plain path ([`plain_path`]) every
/// platform splits components at `/` alone, so the contract states the name
/// exactly there ([`plain_file_name`]); for any path it states that the name
/// is not empty, holds no `/`, and is a part of the path.
#[verifier::external_body]
fn path_file_name(path: &str) -> (r: Option<String>)
    ensures
        file_name_sound(path@, match r { Some(n) => Some(n@), None => None }),
        plain_path(path@) ==> match r { Some(n) => Some(n@), None => None } == plain_file_name(path@),
{
    camino::Utf8Path::new(path).file_name().map(|n| n.to_string())
}

/// A lower-case hexadecimal digit.
pub open spec fn is_lower_hex(c: char) -> bool {
    ('0' <= c && c <= '9') || ('a' <= c && c <= 'f')
}

/// A fresh identifier for a material.
///
/// Trusted: calls `uuid::Uuid::new_v4` and formats it with `as_simple`,
/// which writes the 16 bytes as 32 lower-case hexadecimal digits. The value
/// is random; the contract states only its form. (`new_v4` panics when the
/// platform has no random source.)
#[verifier::external_body]
fn new_material_id() -> (r: String)
    ensures
        r@.len() == 32,
        forall|i: int| 0 <= i < 32 ==> is_lower_hex(#[trigger] r@[i]),
{
    uuid::Uuid::new_v4().as_simple().to_string()
}

/// A video or image material of a draft.
#[derive(Debug, Clone, PartialEq, Eq)]
pub struct VideoMaterial {
    pub id: String,
    /// Absolute path of the file.
    pub path: String,
    /// Duration in microseconds.
    pub duration: u64,
    pub width: u32,
    pub height: u32,
    pub kind: MaterialKind,
    pub name: String,
}

/// An audio material of a draft.
#[derive(Debug, Clone, PartialEq, Eq)]
pub struct AudioMaterial {
    pub id: String,
    /// Absolute path of the file.
    pub path: String,
    /// Duration in microseconds.
    pub duration: u64,
    pub name: String,
}

/// An identifier of 32 lower-case hexadecimal digits.
pub open spec fn id_form(id: Seq<char>) -> bool {
    id.len() == 32 && forall|i: int| 0 <= i < 32 ==> is_lower_hex(#[trigger] id[i])
}

/// The name a material takes: the given one, else the file name of its
/// path, else empty.
pub open spec fn material_name_is(name: Seq<char>, given: Option<Seq<char>>, absolute_path: Seq<char>) -> bool {
    match given {
        Some(n) => name == n,
        None => {
            &&& exists|f: Option<Seq<char>>| #[trigger] file_name_sound(absolute_path, f) && name == match f {
                Some(x) => x,
                None => Seq::empty(),
            }
            &&& plain_path(absolute_path) ==> name == match plain_file_name(absolute_path) {
                Some(x) => x,
                None => Seq::empty(),
            }
        },
    }
}

fn material_name(name: Option<&str>, absolute_path: &str) -> (r: String)
    ensures
        material_name_is(r@, match name { Some(n) => Some(n@), None => None }, absolute_path@),
{
    match name {
        Some(n) => n.to_string(),
        None => {
            let f = path_file_name(absolute_path);
            let ghost fv: Option<Seq<char>> = match &f { Some(x) => Some(x@), None => None };
            assert(file_name_sound(absolute_path@, fv));
            match f {
                Some(x) => x,
                None => {
                    let e = String::new();
                    assert(e@ =~= Seq::<char>::empty());
                    e
                },
            }
        },
    }
}

/// A video or image material made from probed media info: an audio file is
/// refused. The material takes the given name, else the file name; its
/// duration, width and height are those probed, 0 where unknown; its
/// identifier is fresh.
pub fn create_video_material_from_info(path: &str, absolute_path: &str, name: Option<&str>, info: &MediaInfo) -> (r: Result<VideoMaterial, MediaError>)
    ensures
        info.kind == MediaKind::Audio ==> (r matches Err(MediaError::NoVideoStream(p)) && p@ == path@),
        info.kind != MediaKind::Audio ==> (r matches Ok(m) && {
            &&& m.path@ == absolute_path@
            &&& m.duration == match info.duration_us { Some(d) => d, None => 0 }
            &&& m.width == match info.width { Some(w) => w, None => 0 }
            &&& m.height == match info.height { Some(h) => h, None => 0 }
            &&& m.kind == if info.kind == MediaKind::Video { MaterialKind::Video } else { MaterialKind::Photo }
            &&& material_name_is(m.name@, match name { Some(n) => Some(n@), None => None }, absolute_path@)
            &&& id_form(m.id@)
        }),
{
    let material_name = material_name(name, absolute_path);
    let kind = match info.kind {
        MediaKind::Video => MaterialKind::Video,
        MediaKind::Photo => MaterialKind::Photo,
        MediaKind::Audio => return Err(MediaError::NoVideoStream(path.to_string())),
    };
    let duration = match info.duration_us {
        Some(d) => d,
        None => 0,
    };
    let id = new_material_id();
    Ok(VideoMaterial {
        id,
        path: absolute_path.to_string(),
        duration,
        width: match info.width { Some(w) => w, None => 0 },
        height: match info.height { Some(h) => h, None => 0 },
        kind,
        name: material_name,
    })
}

/// An audio material made from probed media info: anything but an audio
/// file is refused. The material takes the given name, else the file name;
/// its duration is the one probed, 0 when unknown; its identifier is fresh.
pub fn create_audio_material_from_info(path: &str, absolute_path: &str, name: Option<&str>, info: &MediaInfo) -> (r: Result<AudioMaterial, MediaError>)
    ensures
        info.kind != MediaKind::Audio ==> (r matches Err(MediaError::NoAudioStream(p)) && p@ == path@),
        info.kind == MediaKind::Audio ==> (r matches Ok(m) && {
            &&& m.path@ == absolute_path@
            &&& m.duration == match info.duration_us { Some(d) => d, None => 0 }
            &&& material_name_is(m.name@, match name { Some(n) => Some(n@), None => None }, absolute_path@)
            &&& id_form(m.id@)
        }),
{
    let material_name = material_name(name, absolute_path);
    if !matches!(info.kind, MediaKind::Audio) {
        return Err(MediaError::NoAudioStream(path.to_string()));
    }
    let duration = match info.duration_us {
        Some(d) => d,
        None => 0,
    };
    let id = new_material_id();
    Ok(AudioMaterial { id, path: absolute_path.to_string(), duration, name: material_name })
}

/// The indices of the first occurrence of each distinct path, in order.
pub open spec fn first_occurrences(paths: Seq<Seq<char>>) -> Seq<int>
    decreases paths.len(),
{
    if paths.len() == 0 {
        Seq::empty()
    } else if paths.drop_last().contains(paths.last()) {
        first_occurrences(paths.drop_last())
    } else {
        first_occurrences(paths.drop_last()).push(paths.len() - 1)
    }
}

/// The probes a batch of media needs: the index of the first request for
/// each distinct (canonical) path, in order; later requests for the same
/// path reuse its probe.
pub fn unique_request_indices(paths: &Vec<String>) -> (r: Vec<usize>)
    ensures
        r@.map_values(|i: usize| i as int) == first_occurrences(paths@.map_values(|p: String| p@)),
{
    let ghost pv = paths@.map_values(|p: String| p@);
    let mut out: Vec<usize> = Vec::new();
    let mut i: usize = 0;
    assert(pv.take(0) =~= Seq::<Seq<char>>::empty());
    while i < paths.len()
        invariant
            i <= paths.len(),
            pv == paths@.map_values(|p: String| p@),
            out@.map_values(|i: usize| i as int) == first_occurrences(pv.take(i as int)),
        decreases paths.len() - i,
    {
        assert(pv.take(i + 1).drop_last() =~= pv.take(i as int));
        assert(pv.take(i + 1).last() == pv[i as int]);
        let mut seen = false;
        let mut j: usize = 0;
        while j < i
            invariant
                j <= i,
                i < paths.len(),
                pv == paths@.map_values(|p: String| p@),
                seen == exists|k: int| 0 <= k < j && pv[k] == pv[i as int],
            decreases i - j,
        {
            if str_eq(paths[j].as_str(), paths[i].as_str()) {
                assert(pv[j as int] == pv[i as int]);
                seen = true;
            }
            j += 1;
        }
        assert(seen == pv.take(i as int).contains(pv[i as int])) by {
            if seen {
                let k = choose|k: int| 0 <= k < i && pv[k] == pv[i as int];
                assert(pv.take(i as int)[k] == pv[i as int]);
            }
            if pv.take(i as int).contains(pv[i as int]) {
                let k = choose|k: int| 0 <= k < pv.take(i as int).len() && pv.take(i as int)[k] == pv[i as int];
                assert(pv[k] == pv[i as int]);
            }
        }
        if !seen {
            let ghost prev = out@.map_values(|i: usize| i as int);
            out.push(i);
            assert(out@.map_values(|i: usize| i as int) =~= prev.push(i as int));
        }
        i += 1;
    }
    assert(pv.take(i as int) =~= pv);
    out
}

/// Each distinct path is probed exactly once: the kept indices point at
/// distinct paths, and every path requested is among them.
#[verifier::rlimit(80)]
#[verifier::spinoff_prover]
pub proof fn lemma_first_occurrences(paths: Seq<Seq<char>>)
    ensures
        forall|i: int| 0 <= i < first_occurrences(paths).len() ==> 0 <= #[trigger] first_occurrences(paths)[i] < paths.len(),
        forall|i: int, j: int| 0 <= i < j < first_occurrences(paths).len()
            ==> paths[#[trigger] first_occurrences(paths)[i]] != paths[#[trigger] first_occurrences(paths)[j]],
        forall|k: int| 0 <= k < paths.len() ==> exists|i: int| 0 <= i < first_occurrences(paths).len()
            && paths[#[trigger] first_occurrences(paths)[i]] == #[trigger] paths[k],
    decreases paths.len(),
{
    if paths.len() > 0 {
        let d = paths.drop_last();
        lemma_first_occurrences(d);
        let f = first_occurrences(d);
        let r = first_occurrences(paths);
        assert forall|i: int| 0 <= i < f.len() implies paths[#[trigger] f[i]] == d[f[i]] by {}
        if d.contains(paths.last()) {
            assert forall|k: int| 0 <= k < paths.len() implies exists|i: int| 0 <= i < r.len()
                && paths[#[trigger] r[i]] == #[trigger] paths[k] by {
                let k2 = if k < d.len() { k } else { choose|q: int| 0 <= q < d.len() && d[q] == paths.last() };
                assert(d[k2] == paths[k]);
                let i = choose|i: int| 0 <= i < f.len() && d[#[trigger] f[i]] == #[trigger] d[k2];
                assert(paths[r[i]] == paths[k]);
            }
        } else {
            assert forall|i: int, j: int| 0 <= i < j < r.len() implies paths[#[trigger] r[i]] != paths[#[trigger] r[j]] by {
                if j == r.len() - 1 {
                    assert(r[j] == paths.len() - 1);
                    assert(d[f[i]] == paths[r[i]]);
                    if paths[r[i]] == paths.last() {
                        assert(d.contains(paths.last()));
                    }
                } else {
                    assert(r[i] == f[i] && r[j] == f[j]);
                }
            }
            assert forall|k: int| 0 <= k < paths.len() implies exists|i: int| 0 <= i < r.len()
                && paths[#[trigger] r[i]] == #[trigger] paths[k] by {
                if k < d.len() {
                    assert(d[k] == paths[k]);
                    let i = choose|i: int| 0 <= i < f.len() && d[#[trigger] f[i]] == #[trigger] d[k];
                    assert(r[i] == f[i]);
                    assert(paths[r[i]] == paths[k]);
                } else {
                    assert(paths[r[r.len() - 1]] == paths[k]);
                }
            }
        }
    }
}

} // verus!
