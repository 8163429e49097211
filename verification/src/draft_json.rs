//! The shape of a draft's `draft_content.json`, computed from a project:
//! its tracks in render order, each clip's segment and the materials it
//! links, and the text materials of text clips.
//!
//! Speeds, volumes and text sizes, which the editor reads as floating
//! point, are held as integer millionths. Transforms, colours and the other
//! floating-point styling are not part of this model: they are copied
//! through by whoever writes the JSON.

use vstd::prelude::*;
use crate::media::{AudioMaterial, VideoMaterial};
use crate::model::{Canvas, TimeRange, TrackKind};

verus! {

/// The pair `(key, index)` of `a` comes strictly before that of `b`.
pub open spec fn key_index_before(keys: Seq<i32>, a: int, b: int) -> bool {
    keys[a] < keys[b] || (keys[a] == keys[b] && a < b)
}

/// `order` lists the index `k`.
pub open spec fn lists(order: Seq<usize>, k: int) -> bool {
    order.contains(k as usize)
}

/// `order` lists the indices of `keys` sorted by key, equal keys keeping
/// their input order.
pub open spec fn is_stable_order(keys: Seq<i32>, order: Seq<usize>) -> bool {
    &&& order.len() == keys.len()
    &&& forall|p: int| 0 <= p < order.len() ==> (#[trigger] order[p]) < keys.len()
    &&& forall|k: int| 0 <= k < keys.len() ==> #[trigger] lists(order, k)
    &&& forall|p: int, q: int| 0 <= p < q < order.len() ==> key_index_before(keys, #[trigger] order[p] as int, #[trigger] order[q] as int)
}

/// The order in which a draft lists its tracks: by render index, tracks of
/// equal render index in the order the project holds them. The result is a
/// permutation of `0..render_indices.len()`.
pub fn draft_track_order(render_indices: &Vec<i32>) -> (r: Vec<usize>)
    ensures
        is_stable_order(render_indices@, r@),
{
    let keys = render_indices;
    let mut r: Vec<usize> = Vec::new();
    let mut i: usize = 0;
    while i < keys.len()
        invariant
            i <= keys.len(),
            r.len() == i,
            forall|p: int| 0 <= p < r.len() ==> (#[trigger] r@[p]) < i,
            forall|k: int| 0 <= k < i ==> #[trigger] lists(r@, k),
            forall|p: int, q: int| 0 <= p < q < r.len() ==> key_index_before(keys@, #[trigger] r@[p] as int, #[trigger] r@[q] as int),
        decreases keys.len() - i,
    {
        let key = keys[i];
        let mut p: usize = 0;
        while p < r.len() && keys[r[p]] <= key
            invariant
                p <= r.len(),
                i < keys.len(),
                key == keys@[i as int],
                forall|q: int| 0 <= q < r.len() ==> (#[trigger] r@[q]) < i,
                forall|q: int| 0 <= q < p ==> keys@[#[trigger] r@[q] as int] <= key,
            decreases r.len() - p,
        {
            p += 1;
        }
        let ghost old_r = r@;
        proof {
            if p < r.len() {
                assert forall|q: int| p <= q < old_r.len() implies keys@[#[trigger] old_r[q] as int] > key by {
                    if q > p {
                        assert(key_index_before(keys@, old_r[p as int] as int, old_r[q] as int));
                    }
                }
            }
        }
        r.insert(p, i);
        assert(r@ == old_r.insert(p as int, i));
        assert forall|k: int| 0 <= k < i + 1 implies #[trigger] lists(r@, k) by {
            if k == i {
                assert(r@[p as int] == i);
            } else {
                assert(lists(old_r, k));
                let w = choose|w: int| 0 <= w < old_r.len() && old_r[w] == k as usize;
                if w < p {
                    assert(r@[w] == old_r[w]);
                } else {
                    assert(r@[w + 1] == old_r[w]);
                }
            }
        }
        assert forall|a: int, b: int| 0 <= a < b < r.len() implies key_index_before(keys@, #[trigger] r@[a] as int, #[trigger] r@[b] as int) by {
            if a < p && b < p {
                assert(r@[a] == old_r[a] && r@[b] == old_r[b]);
            } else if a < p && b == p {
                assert(r@[a] == old_r[a]);
            } else if a < p && b > p {
                assert(r@[a] == old_r[a] && r@[b] == old_r[b - 1]);
            } else if a == p {
                assert(r@[b] == old_r[b - 1]);
            } else {
                assert(r@[a] == old_r[a - 1] && r@[b] == old_r[b - 1]);
            }
        }
        i += 1;
    }
    r
}

proof fn lemma_sorted_same_elements(keys: Seq<i32>, a: Seq<usize>, b: Seq<usize>)
    requires
        forall|p: int, q: int| 0 <= p < q < a.len() ==> key_index_before(keys, #[trigger] a[p] as int, #[trigger] a[q] as int),
        forall|p: int, q: int| 0 <= p < q < b.len() ==> key_index_before(keys, #[trigger] b[p] as int, #[trigger] b[q] as int),
        forall|x: usize| a.contains(x) <==> b.contains(x),
    ensures
        a == b,
    decreases a.len(),
{
    if a.len() == 0 {
        if b.len() > 0 {
            assert(b.contains(b[0]));
        }
        assert(a =~= b);
    } else {
        assert(a.contains(a[0]));
        let q = choose|q: int| 0 <= q < b.len() && b[q] == a[0];
        assert(b.contains(b[0]));
        let r = choose|r: int| 0 <= r < a.len() && a[r] == b[0];
        if q > 0 && r > 0 {
            assert(key_index_before(keys, b[0] as int, b[q] as int));
            assert(key_index_before(keys, a[0] as int, a[r] as int));
        } else if q > 0 {
            assert(key_index_before(keys, b[0] as int, b[q] as int));
        } else if r > 0 {
            assert(key_index_before(keys, a[0] as int, a[r] as int));
        }
        assert(a[0] == b[0]);
        let ta = a.drop_first();
        let tb = b.drop_first();
        assert forall|x: usize| ta.contains(x) implies tb.contains(x) by {
            let i = choose|i: int| 0 <= i < ta.len() && ta[i] == x;
            assert(a[i + 1] == x);
            assert(key_index_before(keys, a[0] as int, a[i + 1] as int));
            assert(b.contains(x));
            let j = choose|j: int| 0 <= j < b.len() && b[j] == x;
            assert(j != 0);
            assert(tb[j - 1] == x);
        }
        assert forall|x: usize| tb.contains(x) implies ta.contains(x) by {
            let i = choose|i: int| 0 <= i < tb.len() && tb[i] == x;
            assert(b[i + 1] == x);
            assert(key_index_before(keys, b[0] as int, b[i + 1] as int));
            assert(a.contains(x));
            let j = choose|j: int| 0 <= j < a.len() && a[j] == x;
            assert(j != 0);
            assert(ta[j - 1] == x);
        }
        assert forall|p: int, q: int| 0 <= p < q < ta.len() implies key_index_before(keys, #[trigger] ta[p] as int, #[trigger] ta[q] as int) by {
            assert(ta[p] == a[p + 1] && ta[q] == a[q + 1]);
        }
        assert forall|p: int, q: int| 0 <= p < q < tb.len() implies key_index_before(keys, #[trigger] tb[p] as int, #[trigger] tb[q] as int) by {
            assert(tb[p] == b[p + 1] && tb[q] == b[q + 1]);
        }
        lemma_sorted_same_elements(keys, ta, tb);
        assert(a =~= seq![a[0]] + ta);
        assert(b =~= seq![b[0]] + tb);
    }
}

/// There is only one stable order of a list of render indices, so the
/// order of a draft's tracks is fixed by the project.
pub proof fn lemma_stable_order_unique(keys: Seq<i32>, a: Seq<usize>, b: Seq<usize>)
    requires
        is_stable_order(keys, a),
        is_stable_order(keys, b),
    ensures
        a == b,
{
    assert forall|x: usize| a.contains(x) implies b.contains(x) by {
        let i = choose|i: int| 0 <= i < a.len() && a[i] == x;
        assert(lists(b, x as int));
    }
    assert forall|x: usize| b.contains(x) implies a.contains(x) by {
        let i = choose|i: int| 0 <= i < b.len() && b[i] == x;
        assert(lists(a, x as int));
    }
    lemma_sorted_same_elements(keys, a, b);
}

/// The `check_flag` of a text material: 7 for fill, size and colour, plus 8
/// with a border, 16 with a background and 32 with a shadow.
pub open spec fn spec_text_check_flag(border: bool, background: bool, shadow: bool) -> int {
    7 + (if border { 8int } else { 0 }) + (if background { 16int } else { 0 }) + (if shadow { 32int } else { 0 })
}

/// Each part of a text style owns one bit of the check flag: the low three
/// bits are always set, 8 marks a border, 16 a background and 32 a shadow,
/// and nothing else is set.
pub proof fn lemma_text_check_flag_bits(border: bool, background: bool, shadow: bool)
    ensures
        spec_text_check_flag(border, background, shadow) % 8 == 7,
        (spec_text_check_flag(border, background, shadow) / 8) % 2 == (if border { 1int } else { 0 }),
        (spec_text_check_flag(border, background, shadow) / 16) % 2 == (if background { 1int } else { 0 }),
        (spec_text_check_flag(border, background, shadow) / 32) % 2 == (if shadow { 1int } else { 0 }),
        spec_text_check_flag(border, background, shadow) < 64,
{
}

/// The `check_flag` of a text material.
pub fn text_check_flag(border: bool, background: bool, shadow: bool) -> (r: u32)
    ensures
        r == spec_text_check_flag(border, background, shadow),
        r % 8 == 7,
        (r / 8) % 2 == (if border { 1u32 } else { 0 }),
        (r / 16) % 2 == (if background { 1u32 } else { 0 }),
        (r / 32) % 2 == (if shadow { 1u32 } else { 0 }),
        r < 64,
{
    proof {
        lemma_text_check_flag_bits(border, background, shadow);
    }
    let mut flag: u32 = 7;
    if border {
        flag = flag + 8;
    }
    if background {
        flag = flag + 16;
    }
    if shadow {
        flag = flag + 32;
    }
    flag
}


/// A video clip of a project: where it sits, what it shows, and the
/// identifiers of the materials attached to it.
#[derive(Debug, Clone, PartialEq, Eq)]
pub struct VideoClip {
    pub id: String,
    pub material_id: String,
    pub target: TimeRange,
    pub source: Option<TimeRange>,
    pub speed_id: String,
    /// Playback speed, in millionths.
    pub speed: u64,
    /// Volume, in millionths.
    pub volume: u64,
    pub change_pitch: bool,
    pub fade_id: Option<String>,
    pub effect_ids: Vec<String>,
    pub filter_ids: Vec<String>,
    pub mix_mode_id: Option<String>,
    pub mask_id: Option<String>,
    pub transition_id: Option<String>,
    pub background_id: Option<String>,
    pub animation_id: Option<String>,
}

/// An audio clip of a project.
#[derive(Debug, Clone, PartialEq, Eq)]
pub struct AudioClip {
    pub id: String,
    pub material_id: String,
    pub target: TimeRange,
    pub source: Option<TimeRange>,
    pub speed_id: String,
    /// Playback speed, in millionths.
    pub speed: u64,
    /// Volume, in millionths.
    pub volume: u64,
    pub change_pitch: bool,
    pub fade_id: Option<String>,
    pub effect_ids: Vec<String>,
}

/// A text clip of a project; `background` and `shadow` tell whether its
/// style has them, `border` gives the width of its border, if it has one.
#[derive(Debug, Clone, PartialEq, Eq)]
pub struct TextClip {
    pub id: String,
    pub material_id: String,
    pub target: TimeRange,
    pub text: String,
    /// Font size, in millionths.
    pub size: u64,
    /// Border width, in millionths.
    pub border: Option<u64>,
    pub background: bool,
    pub shadow: bool,
    pub auto_wrapping: bool,
    pub animation_id: Option<String>,
    pub bubble_id: Option<String>,
    pub effect_id: Option<String>,
}

/// An image clip of a project.
#[derive(Debug, Clone, PartialEq, Eq)]
pub struct ImageClip {
    pub id: String,
    pub material_id: String,
    pub target: TimeRange,
    pub source: Option<TimeRange>,
    pub speed_id: String,
    /// Playback speed, in millionths.
    pub speed: u64,
    pub background_id: Option<String>,
    pub animation_id: Option<String>,
}

/// A clip of a project track.
#[derive(Debug, Clone, PartialEq, Eq)]
pub enum Clip {
    Video(VideoClip),
    Audio(AudioClip),
    Text(TextClip),
    Image(ImageClip),
}

/// A track of a project.
#[derive(Debug, Clone, PartialEq, Eq)]
pub struct Track {
    pub id: String,
    pub name: String,
    pub kind: TrackKind,
    pub render_index: i32,
    pub mute: bool,
    pub clips: Vec<Clip>,
}

/// A project: what a draft is made of.
#[derive(Debug, Clone, PartialEq, Eq)]
pub struct Project {
    /// Duration in microseconds.
    pub duration: u64,
    pub canvas: Canvas,
    pub maintrack_adsorb: bool,
    pub tracks: Vec<Track>,
    pub video_materials: Vec<VideoMaterial>,
    pub audio_materials: Vec<AudioMaterial>,
}

/// The material list of a draft a linked material belongs to.
#[derive(Debug, Clone, Copy, PartialEq, Eq)]
pub enum MaterialCategory {
    Speed,
    AudioFade,
    VideoEffect,
    /// Listed under `effects`.
    Filter,
    /// Listed under `effects`.
    MixMode,
    Mask,
    Transition,
    /// Listed under `canvases`.
    BackgroundFilling,
    /// Listed under `material_animations`.
    Animation,
    AudioEffect,
    /// A text bubble, listed under `effects`.
    TextShape,
    /// A text effect, listed under `effects`.
    TextEffect,
}

impl MaterialCategory {
    /// The list of a draft's `materials` that holds materials of this
    /// category.
    pub fn list_name(&self) -> (r: &'static str)
        ensures
            r@ == match *self {
                MaterialCategory::Speed => "speeds"@,
                MaterialCategory::AudioFade => "audio_fades"@,
                MaterialCategory::VideoEffect => "video_effects"@,
                MaterialCategory::Filter => "effects"@,
                MaterialCategory::MixMode => "effects"@,
                MaterialCategory::TextShape => "effects"@,
                MaterialCategory::TextEffect => "effects"@,
                MaterialCategory::Mask => "masks"@,
                MaterialCategory::Transition => "transitions"@,
                MaterialCategory::BackgroundFilling => "canvases"@,
                MaterialCategory::Animation => "material_animations"@,
                MaterialCategory::AudioEffect => "audio_effects"@,
            },
    {
        match self {
            MaterialCategory::Speed => "speeds",
            MaterialCategory::AudioFade => "audio_fades",
            MaterialCategory::VideoEffect => "video_effects",
            MaterialCategory::Filter => "effects",
            MaterialCategory::MixMode => "effects",
            MaterialCategory::TextShape => "effects",
            MaterialCategory::TextEffect => "effects",
            MaterialCategory::Mask => "masks",
            MaterialCategory::Transition => "transitions",
            MaterialCategory::BackgroundFilling => "canvases",
            MaterialCategory::Animation => "material_animations",
            MaterialCategory::AudioEffect => "audio_effects",
        }
    }
}

/// A material a clip links: its list and identifier.
#[derive(Debug, Clone, PartialEq, Eq)]
pub struct MaterialRef {
    pub category: MaterialCategory,
    pub id: String,
}

/// The text material of a text clip.
#[derive(Debug, Clone, PartialEq, Eq)]
pub struct TextMaterial {
    pub id: String,
    pub text: String,
    pub check_flag: u32,
    /// The styled range ends here: the number of characters of the text.
    pub text_len: usize,
    /// Font size, in millionths.
    pub size: u64,
    /// The width of the border stroke, in millionths; none without a border.
    pub stroke_width: Option<u64>,
    /// `subtitle` when the text wraps automatically, `text` otherwise.
    pub subtitle: bool,
}

/// The kind of clip a segment shows.
#[derive(Debug, Clone, Copy, PartialEq, Eq)]
pub enum SegmentKind {
    Video,
    Audio,
    Text,
    Image,
}

/// A segment of a draft track.
#[derive(Debug, Clone, PartialEq, Eq)]
pub struct Segment {
    pub id: String,
    pub material_id: String,
    pub target: TimeRange,
    /// None for text segments.
    pub source: Option<TimeRange>,
    pub extra_material_refs: Vec<String>,
    pub render_index: i32,
    pub kind: SegmentKind,
    /// Playback speed, in millionths.
    pub speed: u64,
    /// Volume, in millionths.
    pub volume: u64,
    pub is_tone_modify: bool,
    /// Whether the segment has a `clip` transform (audio has none).
    pub has_clip: bool,
    /// Whether the segment has `hdr_settings` (audio has none).
    pub has_hdr_settings: bool,
}

/// A track of a draft.
#[derive(Debug, Clone, PartialEq, Eq)]
pub struct DraftTrack {
    pub id: String,
    pub name: String,
    pub kind: TrackKind,
    /// 1 for a muted track, else 0.
    pub attribute: u32,
    pub is_default_name: bool,
    pub segments: Vec<Segment>,
}

/// The content of a draft.
#[derive(Debug, Clone, PartialEq, Eq)]
pub struct DraftModel {
    pub duration: u64,
    pub canvas: Canvas,
    pub maintrack_adsorb: bool,
    /// The project's video and image materials, as they are.
    pub video_materials: Vec<VideoMaterial>,
    /// The project's audio materials, as they are.
    pub audio_materials: Vec<AudioMaterial>,
    /// Every material the clips link, in track and clip order; each list of
    /// the draft holds those of its category in this order.
    pub materials: Vec<MaterialRef>,
    /// The text materials of the text clips, in track and clip order.
    pub texts: Vec<TextMaterial>,
    /// The tracks in render order.
    pub tracks: Vec<DraftTrack>,
}

/// The texts of a sequence of strings.
pub open spec fn strs(v: Seq<String>) -> Seq<Seq<char>> {
    v.map_values(|s: String| s@)
}

/// The text of an optional string, as a sequence of none or one.
pub open spec fn opt(o: Option<String>) -> Seq<Seq<char>> {
    match o {
        Some(s) => seq![s@],
        None => Seq::empty(),
    }
}

/// Identifiers tagged with their material list.
pub open spec fn tag(c: MaterialCategory, ids: Seq<Seq<char>>) -> Seq<(MaterialCategory, Seq<char>)> {
    ids.map_values(|i: Seq<char>| (c, i))
}

/// The materials a clip links, in the order a draft lists them.
pub open spec fn clip_materials(c: Clip) -> Seq<(MaterialCategory, Seq<char>)> {
    match c {
        Clip::Video(v) => tag(MaterialCategory::Speed, seq![v.speed_id@]) + tag(MaterialCategory::AudioFade, opt(v.fade_id))
            + tag(MaterialCategory::VideoEffect, strs(v.effect_ids@)) + tag(MaterialCategory::Filter, strs(v.filter_ids@))
            + tag(MaterialCategory::MixMode, opt(v.mix_mode_id)) + tag(MaterialCategory::Mask, opt(v.mask_id))
            + tag(MaterialCategory::Transition, opt(v.transition_id))
            + tag(MaterialCategory::BackgroundFilling, opt(v.background_id))
            + tag(MaterialCategory::Animation, opt(v.animation_id)),
        Clip::Audio(a) => tag(MaterialCategory::Speed, seq![a.speed_id@]) + tag(MaterialCategory::AudioFade, opt(a.fade_id))
            + tag(MaterialCategory::AudioEffect, strs(a.effect_ids@)),
        Clip::Text(t) => tag(MaterialCategory::Animation, opt(t.animation_id)) + tag(MaterialCategory::TextShape, opt(t.bubble_id))
            + tag(MaterialCategory::TextEffect, opt(t.effect_id)),
        Clip::Image(i) => tag(MaterialCategory::Speed, seq![i.speed_id@])
            + tag(MaterialCategory::BackgroundFilling, opt(i.background_id))
            + tag(MaterialCategory::Animation, opt(i.animation_id)),
    }
}

/// The identifiers of tagged materials.
pub open spec fn ids_of(m: Seq<(MaterialCategory, Seq<char>)>) -> Seq<Seq<char>> {
    m.map_values(|p: (MaterialCategory, Seq<char>)| p.1)
}

/// The views of material references.
pub open spec fn ref_views(v: Seq<MaterialRef>) -> Seq<(MaterialCategory, Seq<char>)> {
    v.map_values(|m: MaterialRef| (m.category, m.id@))
}

/// A text material as values: identifier, text, check flag, styled length,
/// whether it is a subtitle, font size and border stroke width.
pub open spec fn text_view(t: TextMaterial) -> (Seq<char>, Seq<char>, int, int, bool, u64, Option<u64>) {
    (t.id@, t.text@, t.check_flag as int, t.text_len as int, t.subtitle, t.size, t.stroke_width)
}

/// The text materials a clip makes: one for a text clip, none otherwise.
pub open spec fn clip_texts(c: Clip) -> Seq<(Seq<char>, Seq<char>, int, int, bool, u64, Option<u64>)> {
    match c {
        Clip::Text(t) => seq![(t.material_id@, t.text@, spec_text_check_flag(t.border is Some, t.background, t.shadow), t.text@.len() as int, t.auto_wrapping, t.size, t.border)],
        _ => Seq::empty(),
    }
}

/// The materials the clips link, clip after clip.
pub open spec fn clips_materials(clips: Seq<Clip>) -> Seq<(MaterialCategory, Seq<char>)>
    decreases clips.len(),
{
    if clips.len() == 0 {
        Seq::empty()
    } else {
        clips_materials(clips.drop_last()) + clip_materials(clips.last())
    }
}

/// The materials the clips of the tracks link, track after track.
pub open spec fn tracks_materials(tracks: Seq<Track>) -> Seq<(MaterialCategory, Seq<char>)>
    decreases tracks.len(),
{
    if tracks.len() == 0 {
        Seq::empty()
    } else {
        tracks_materials(tracks.drop_last()) + clips_materials(tracks.last().clips@)
    }
}

/// The text materials of the clips, clip after clip.
pub open spec fn clips_texts(clips: Seq<Clip>) -> Seq<(Seq<char>, Seq<char>, int, int, bool, u64, Option<u64>)>
    decreases clips.len(),
{
    if clips.len() == 0 {
        Seq::empty()
    } else {
        clips_texts(clips.drop_last()) + clip_texts(clips.last())
    }
}

/// The text materials of the clips of the tracks, track after track.
pub open spec fn tracks_texts(tracks: Seq<Track>) -> Seq<(Seq<char>, Seq<char>, int, int, bool, u64, Option<u64>)>
    decreases tracks.len(),
{
    if tracks.len() == 0 {
        Seq::empty()
    } else {
        tracks_texts(tracks.drop_last()) + clips_texts(tracks.last().clips@)
    }
}

/// A segment as values: identifier, material, target and source ranges,
/// linked materials, render index and kind.
pub open spec fn segment_view(s: Segment) -> ((Seq<char>, Seq<char>, TimeRange, Option<TimeRange>, Seq<Seq<char>>, i32, SegmentKind), (u64, u64, bool, bool, bool)) {
    (
        (s.id@, s.material_id@, s.target, s.source, strs(s.extra_material_refs@), s.render_index, s.kind),
        (s.speed, s.volume, s.is_tone_modify, s.has_clip, s.has_hdr_settings),
    )
}

/// One, in millionths: the speed and volume of a text segment, and the
/// volume of an image segment.
pub const UNIT_MILLIONTHS: u64 = 1_000_000;

/// The segment a clip becomes on a track of render index `ri`: it links the
/// clip's materials; a text segment has no source range. Video and audio
/// segments take the clip's speed, volume and pitch setting; an image takes
/// its speed at full volume; a text plays at speed one and full volume.
/// Every segment but an audio one has a `clip` transform and HDR settings.
pub open spec fn clip_segment(c: Clip, ri: i32) -> ((Seq<char>, Seq<char>, TimeRange, Option<TimeRange>, Seq<Seq<char>>, i32, SegmentKind), (u64, u64, bool, bool, bool)) {
    let refs = ids_of(clip_materials(c));
    match c {
        Clip::Video(v) => ((v.id@, v.material_id@, v.target, v.source, refs, ri, SegmentKind::Video), (v.speed, v.volume, v.change_pitch, true, true)),
        Clip::Audio(a) => ((a.id@, a.material_id@, a.target, a.source, refs, ri, SegmentKind::Audio), (a.speed, a.volume, a.change_pitch, false, false)),
        Clip::Text(t) => ((t.id@, t.material_id@, t.target, None, refs, ri, SegmentKind::Text), (UNIT_MILLIONTHS, UNIT_MILLIONTHS, false, true, true)),
        Clip::Image(i) => ((i.id@, i.material_id@, i.target, i.source, refs, ri, SegmentKind::Image), (i.speed, UNIT_MILLIONTHS, false, true, true)),
    }
}

/// The draft track a project track becomes, given its segments' views.
pub open spec fn track_matches(d: DraftTrack, t: Track) -> bool {
    &&& d.id@ == t.id@
    &&& d.name@ == t.name@
    &&& d.kind == t.kind
    &&& d.attribute == (if t.mute { 1u32 } else { 0u32 })
    &&& d.is_default_name == (t.name@.len() == 0)
    &&& d.segments.len() == t.clips.len()
    &&& forall|j: int| 0 <= j < t.clips.len() ==> segment_view(#[trigger] d.segments@[j]) == clip_segment(t.clips@[j], t.render_index)
}

/// The render indices of the tracks.
pub open spec fn render_keys(tracks: Seq<Track>) -> Seq<i32> {
    tracks.map_values(|t: Track| t.render_index)
}

fn push_one(v: &mut Vec<MaterialRef>, c: MaterialCategory, id: &String)
    ensures
        ref_views(final(v)@) == ref_views(old(v)@) + tag(c, seq![id@]),
{
    let ghost pre = v@;
    v.push(MaterialRef { category: c, id: id.clone() });
    assert(ref_views(v@) =~= ref_views(pre) + tag(c, seq![id@]));
}

fn push_opt(v: &mut Vec<MaterialRef>, c: MaterialCategory, id: &Option<String>)
    ensures
        ref_views(final(v)@) == ref_views(old(v)@) + tag(c, opt(*id)),
{
    match id {
        Some(s) => push_one(v, c, s),
        None => {
            assert(ref_views(v@) =~= ref_views(v@) + tag(c, opt(*id)));
        },
    }
}

fn push_all(v: &mut Vec<MaterialRef>, c: MaterialCategory, ids: &Vec<String>)
    ensures
        ref_views(final(v)@) == ref_views(old(v)@) + tag(c, strs(ids@)),
{
    let ghost pre = ref_views(v@);
    let mut i: usize = 0;
    while i < ids.len()
        invariant
            i <= ids.len(),
            ref_views(v@) == pre + tag(c, strs(ids@.take(i as int))),
        decreases ids.len() - i,
    {
        push_one(v, c, &ids[i]);
        assert(tag(c, strs(ids@.take(i + 1))) =~= tag(c, strs(ids@.take(i as int))) + tag(c, seq![ids@[i as int]@]));
        i += 1;
    }
    assert(ids@.take(ids.len() as int) =~= ids@);
}

/// The materials a clip links, in the order a draft lists them.
pub fn clip_material_refs(c: &Clip) -> (r: Vec<MaterialRef>)
    ensures
        ref_views(r@) == clip_materials(*c),
{
    let mut v: Vec<MaterialRef> = Vec::new();
    assert(ref_views(v@) =~= Seq::empty());
    match c {
        Clip::Video(x) => {
            push_one(&mut v, MaterialCategory::Speed, &x.speed_id);
            push_opt(&mut v, MaterialCategory::AudioFade, &x.fade_id);
            push_all(&mut v, MaterialCategory::VideoEffect, &x.effect_ids);
            push_all(&mut v, MaterialCategory::Filter, &x.filter_ids);
            push_opt(&mut v, MaterialCategory::MixMode, &x.mix_mode_id);
            push_opt(&mut v, MaterialCategory::Mask, &x.mask_id);
            push_opt(&mut v, MaterialCategory::Transition, &x.transition_id);
            push_opt(&mut v, MaterialCategory::BackgroundFilling, &x.background_id);
            push_opt(&mut v, MaterialCategory::Animation, &x.animation_id);
        },
        Clip::Audio(x) => {
            push_one(&mut v, MaterialCategory::Speed, &x.speed_id);
            push_opt(&mut v, MaterialCategory::AudioFade, &x.fade_id);
            push_all(&mut v, MaterialCategory::AudioEffect, &x.effect_ids);
        },
        Clip::Text(x) => {
            push_opt(&mut v, MaterialCategory::Animation, &x.animation_id);
            push_opt(&mut v, MaterialCategory::TextShape, &x.bubble_id);
            push_opt(&mut v, MaterialCategory::TextEffect, &x.effect_id);
        },
        Clip::Image(x) => {
            push_one(&mut v, MaterialCategory::Speed, &x.speed_id);
            push_opt(&mut v, MaterialCategory::BackgroundFilling, &x.background_id);
            push_opt(&mut v, MaterialCategory::Animation, &x.animation_id);
        },
    }
    v
}

fn ref_ids(v: &Vec<MaterialRef>) -> (r: Vec<String>)
    ensures
        strs(r@) == ids_of(ref_views(v@)),
{
    let mut r: Vec<String> = Vec::new();
    let mut i: usize = 0;
    while i < v.len()
        invariant
            i <= v.len(),
            strs(r@) == ids_of(ref_views(v@.take(i as int))),
        decreases v.len() - i,
    {
        r.push(v[i].id.clone());
        assert(ids_of(ref_views(v@.take(i + 1))) =~= ids_of(ref_views(v@.take(i as int))).push(v@[i as int].id@));
        assert(strs(r@) =~= ids_of(ref_views(v@.take(i + 1))));
        i += 1;
    }
    assert(v@.take(v.len() as int) =~= v@);
    r
}

/// The segment a clip becomes on a track of render index `render_index`.
pub fn clip_to_segment(c: &Clip, render_index: i32) -> (r: Segment)
    ensures
        segment_view(r) == clip_segment(*c, render_index),
{
    let refs = clip_material_refs(c);
    let extra = ref_ids(&refs);
    match c {
        Clip::Video(x) => Segment {
            id: x.id.clone(), material_id: x.material_id.clone(), target: x.target, source: x.source,
            extra_material_refs: extra, render_index, kind: SegmentKind::Video,
            speed: x.speed, volume: x.volume, is_tone_modify: x.change_pitch, has_clip: true, has_hdr_settings: true,
        },
        Clip::Audio(x) => Segment {
            id: x.id.clone(), material_id: x.material_id.clone(), target: x.target, source: x.source,
            extra_material_refs: extra, render_index, kind: SegmentKind::Audio,
            speed: x.speed, volume: x.volume, is_tone_modify: x.change_pitch, has_clip: false, has_hdr_settings: false,
        },
        Clip::Text(x) => Segment {
            id: x.id.clone(), material_id: x.material_id.clone(), target: x.target, source: None,
            extra_material_refs: extra, render_index, kind: SegmentKind::Text,
            speed: UNIT_MILLIONTHS, volume: UNIT_MILLIONTHS, is_tone_modify: false, has_clip: true, has_hdr_settings: true,
        },
        Clip::Image(x) => Segment {
            id: x.id.clone(), material_id: x.material_id.clone(), target: x.target, source: x.source,
            extra_material_refs: extra, render_index, kind: SegmentKind::Image,
            speed: x.speed, volume: UNIT_MILLIONTHS, is_tone_modify: false, has_clip: true, has_hdr_settings: true,
        },
    }
}

/// The text material of a text clip.
pub fn text_material(t: &TextClip) -> (r: TextMaterial)
    ensures
        clip_texts(Clip::Text(*t)) == seq![text_view(r)],
{
    let text_len = t.text.as_str().unicode_len();
    TextMaterial {
        id: t.material_id.clone(),
        text: t.text.clone(),
        check_flag: text_check_flag(t.border.is_some(), t.background, t.shadow),
        text_len,
        subtitle: t.auto_wrapping,
        size: t.size,
        stroke_width: t.border,
    }
}

/// The draft track a project track becomes.
pub fn track_to_draft(t: &Track) -> (r: DraftTrack)
    ensures
        track_matches(r, *t),
{
    let mut segments: Vec<Segment> = Vec::new();
    let mut j: usize = 0;
    while j < t.clips.len()
        invariant
            j <= t.clips.len(),
            segments.len() == j,
            forall|k: int| 0 <= k < j ==> segment_view(#[trigger] segments@[k]) == clip_segment(t.clips@[k], t.render_index),
        decreases t.clips.len() - j,
    {
        let s = clip_to_segment(&t.clips[j], t.render_index);
        segments.push(s);
        j += 1;
    }
    DraftTrack {
        id: t.id.clone(),
        name: t.name.clone(),
        kind: t.kind,
        attribute: if t.mute { 1 } else { 0 },
        is_default_name: t.name.as_str().unicode_len() == 0,
        segments,
    }
}

fn copy_video_materials(v: &Vec<VideoMaterial>) -> (r: Vec<VideoMaterial>)
    ensures
        r@ == v@,
{
    let mut r: Vec<VideoMaterial> = Vec::new();
    let mut i: usize = 0;
    while i < v.len()
        invariant
            i <= v.len(),
            r@ == v@.take(i as int),
        decreases v.len() - i,
    {
        let m = &v[i];
        r.push(VideoMaterial {
            id: m.id.clone(),
            path: m.path.clone(),
            duration: m.duration,
            width: m.width,
            height: m.height,
            kind: m.kind,
            name: m.name.clone(),
        });
        assert(r@ =~= v@.take(i + 1));
        i += 1;
    }
    assert(v@.take(v.len() as int) =~= v@);
    r
}

fn copy_audio_materials(v: &Vec<AudioMaterial>) -> (r: Vec<AudioMaterial>)
    ensures
        r@ == v@,
{
    let mut r: Vec<AudioMaterial> = Vec::new();
    let mut i: usize = 0;
    while i < v.len()
        invariant
            i <= v.len(),
            r@ == v@.take(i as int),
        decreases v.len() - i,
    {
        let m = &v[i];
        r.push(AudioMaterial { id: m.id.clone(), path: m.path.clone(), duration: m.duration, name: m.name.clone() });
        assert(r@ =~= v@.take(i + 1));
        i += 1;
    }
    assert(v@.take(v.len() as int) =~= v@);
    r
}

/// The content of the draft of a project: its duration, canvas (frame rate
/// included), main track adsorption and video and audio materials as the
/// project has them; every material the clips link
/// and every text material, in track and clip order; and the tracks sorted
/// by render index (tracks of equal render index in project order), each
/// with one segment per clip.
pub fn project_to_draft(project: &Project) -> (r: DraftModel)
    ensures
        r.duration == project.duration,
        r.canvas == project.canvas,
        r.maintrack_adsorb == project.maintrack_adsorb,
        r.video_materials@ == project.video_materials@,
        r.audio_materials@ == project.audio_materials@,
        ref_views(r.materials@) == tracks_materials(project.tracks@),
        r.texts@.map_values(|t: TextMaterial| text_view(t)) == tracks_texts(project.tracks@),
        exists|order: Seq<usize>| {
            &&& is_stable_order(render_keys(project.tracks@), order)
            &&& r.tracks.len() == order.len()
            &&& forall|p: int| 0 <= p < order.len() ==> track_matches(#[trigger] r.tracks@[p], project.tracks@[order[p] as int])
        },
{
    let tracks = &project.tracks;
    let mut materials: Vec<MaterialRef> = Vec::new();
    let mut texts: Vec<TextMaterial> = Vec::new();
    let mut i: usize = 0;
    assert(ref_views(materials@) =~= Seq::empty());
    assert(texts@.map_values(|t: TextMaterial| text_view(t)) =~= Seq::empty());
    while i < tracks.len()
        invariant
            i <= tracks.len(),
            ref_views(materials@) == tracks_materials(tracks@.take(i as int)),
            texts@.map_values(|t: TextMaterial| text_view(t)) == tracks_texts(tracks@.take(i as int)),
        decreases tracks.len() - i,
    {
        let clips = &tracks[i].clips;
        let ghost m0 = ref_views(materials@);
        let ghost t0 = texts@.map_values(|t: TextMaterial| text_view(t));
        let mut j: usize = 0;
        assert(clips@.take(0) =~= Seq::<Clip>::empty());
        assert(m0 + clips_materials(clips@.take(0)) =~= m0);
        assert(t0 + clips_texts(clips@.take(0)) =~= t0);
        while j < clips.len()
            invariant
                j <= clips.len(),
                ref_views(materials@) == m0 + clips_materials(clips@.take(j as int)),
                texts@.map_values(|t: TextMaterial| text_view(t)) == t0 + clips_texts(clips@.take(j as int)),
            decreases clips.len() - j,
        {
            let c = &clips[j];
            let ghost mb = materials@;
            let mut refs = clip_material_refs(c);
            let ghost rb = refs@;
            materials.append(&mut refs);
            assert(ref_views(materials@) =~= ref_views(mb) + ref_views(rb));
            assert(clips@.take(j + 1).drop_last() =~= clips@.take(j as int));
            assert(clips_materials(clips@.take(j + 1)) == clips_materials(clips@.take(j as int)) + clip_materials(clips@[j as int]));
            assert(ref_views(materials@) =~= m0 + clips_materials(clips@.take(j + 1)));
            let ghost tb = texts@;
            match c {
                Clip::Text(tc) => {
                    let tm = text_material(tc);
                    texts.push(tm);
                    assert(texts@.map_values(|t: TextMaterial| text_view(t)) =~= tb.map_values(|t: TextMaterial| text_view(t)).push(text_view(tm)));
                },
                _ => {},
            }
            assert(clips_texts(clips@.take(j + 1)) == clips_texts(clips@.take(j as int)) + clip_texts(clips@[j as int]));
            assert(texts@.map_values(|t: TextMaterial| text_view(t)) =~= t0 + clips_texts(clips@.take(j + 1)));
            j += 1;
        }
        assert(clips@.take(clips.len() as int) =~= clips@);
        assert(tracks@.take(i + 1).drop_last() =~= tracks@.take(i as int));
        assert(tracks_materials(tracks@.take(i + 1)) == tracks_materials(tracks@.take(i as int)) + clips_materials(tracks@[i as int].clips@));
        assert(tracks_texts(tracks@.take(i + 1)) == tracks_texts(tracks@.take(i as int)) + clips_texts(tracks@[i as int].clips@));
        i += 1;
    }
    assert(tracks@.take(tracks.len() as int) =~= tracks@);

    let mut keys: Vec<i32> = Vec::new();
    let mut k: usize = 0;
    while k < tracks.len()
        invariant
            k <= tracks.len(),
            keys@ == render_keys(tracks@.take(k as int)),
        decreases tracks.len() - k,
    {
        keys.push(tracks[k].render_index);
        assert(render_keys(tracks@.take(k + 1)) =~= render_keys(tracks@.take(k as int)).push(tracks@[k as int].render_index));
        k += 1;
    }
    assert(keys@ == render_keys(tracks@));
    let order = draft_track_order(&keys);
    let mut out: Vec<DraftTrack> = Vec::new();
    let mut p: usize = 0;
    while p < order.len()
        invariant
            p <= order.len(),
            is_stable_order(render_keys(tracks@), order@),
            render_keys(tracks@).len() == tracks.len(),
            out.len() == p,
            forall|q: int| 0 <= q < p ==> track_matches(#[trigger] out@[q], tracks@[order@[q] as int]),
        decreases order.len() - p,
    {
        let t = track_to_draft(&tracks[order[p]]);
        out.push(t);
        p += 1;
    }
    DraftModel {
        duration: project.duration,
        canvas: project.canvas,
        maintrack_adsorb: project.maintrack_adsorb,
        video_materials: copy_video_materials(&project.video_materials),
        audio_materials: copy_audio_materials(&project.audio_materials),
        materials,
        texts,
        tracks: out,
    }
}


/// How many of the materials `m` belong to category `c`.
pub open spec fn count_in(m: Seq<(MaterialCategory, Seq<char>)>, c: MaterialCategory) -> nat
    decreases m.len(),
{
    if m.len() == 0 {
        0
    } else {
        count_in(m.drop_last(), c) + if m.last().0 == c { 1nat } else { 0nat }
    }
}

/// How many of the clips play at a speed of their own: all but texts.
pub open spec fn speed_clips(clips: Seq<Clip>) -> nat
    decreases clips.len(),
{
    if clips.len() == 0 {
        0
    } else {
        speed_clips(clips.drop_last()) + if clips.last() is Text { 0nat } else { 1nat }
    }
}

/// How many clips of the tracks play at a speed of their own.
pub open spec fn tracks_speed_clips(tracks: Seq<Track>) -> nat
    decreases tracks.len(),
{
    if tracks.len() == 0 {
        0
    } else {
        tracks_speed_clips(tracks.drop_last()) + speed_clips(tracks.last().clips@)
    }
}

/// How many of the clips are texts.
pub open spec fn text_clips(clips: Seq<Clip>) -> nat
    decreases clips.len(),
{
    if clips.len() == 0 {
        0
    } else {
        text_clips(clips.drop_last()) + if clips.last() is Text { 1nat } else { 0nat }
    }
}

/// How many clips of the tracks are texts.
pub open spec fn tracks_text_clips(tracks: Seq<Track>) -> nat
    decreases tracks.len(),
{
    if tracks.len() == 0 {
        0
    } else {
        tracks_text_clips(tracks.drop_last()) + text_clips(tracks.last().clips@)
    }
}

proof fn lemma_count_concat(a: Seq<(MaterialCategory, Seq<char>)>, b: Seq<(MaterialCategory, Seq<char>)>, c: MaterialCategory)
    ensures
        count_in(a + b, c) == count_in(a, c) + count_in(b, c),
    decreases b.len(),
{
    if b.len() == 0 {
        assert(a + b =~= a);
    } else {
        lemma_count_concat(a, b.drop_last(), c);
        assert((a + b).drop_last() =~= a + b.drop_last());
    }
}

proof fn lemma_count_tag(cat: MaterialCategory, ids: Seq<Seq<char>>, c: MaterialCategory)
    ensures
        count_in(tag(cat, ids), c) == if cat == c { ids.len() } else { 0 },
    decreases ids.len(),
{
    if ids.len() > 0 {
        lemma_count_tag(cat, ids.drop_last(), c);
        assert(tag(cat, ids).drop_last() =~= tag(cat, ids.drop_last()));
    }
}

proof fn lemma_clip_speed_count(clip: Clip)
    ensures
        count_in(clip_materials(clip), MaterialCategory::Speed) == if clip is Text { 0nat } else { 1nat },
{
    let c = MaterialCategory::Speed;
    match clip {
        Clip::Video(v) => {
            let p1 = tag(MaterialCategory::Speed, seq![v.speed_id@]);
            let p2 = tag(MaterialCategory::AudioFade, opt(v.fade_id));
            let p3 = tag(MaterialCategory::VideoEffect, strs(v.effect_ids@));
            let p4 = tag(MaterialCategory::Filter, strs(v.filter_ids@));
            let p5 = tag(MaterialCategory::MixMode, opt(v.mix_mode_id));
            let p6 = tag(MaterialCategory::Mask, opt(v.mask_id));
            let p7 = tag(MaterialCategory::Transition, opt(v.transition_id));
            let p8 = tag(MaterialCategory::BackgroundFilling, opt(v.background_id));
            let p9 = tag(MaterialCategory::Animation, opt(v.animation_id));
            lemma_count_tag(MaterialCategory::Speed, seq![v.speed_id@], c);
            lemma_count_tag(MaterialCategory::AudioFade, opt(v.fade_id), c);
            lemma_count_tag(MaterialCategory::VideoEffect, strs(v.effect_ids@), c);
            lemma_count_tag(MaterialCategory::Filter, strs(v.filter_ids@), c);
            lemma_count_tag(MaterialCategory::MixMode, opt(v.mix_mode_id), c);
            lemma_count_tag(MaterialCategory::Mask, opt(v.mask_id), c);
            lemma_count_tag(MaterialCategory::Transition, opt(v.transition_id), c);
            lemma_count_tag(MaterialCategory::BackgroundFilling, opt(v.background_id), c);
            lemma_count_tag(MaterialCategory::Animation, opt(v.animation_id), c);
            lemma_count_concat(p1, p2, c);
            lemma_count_concat(p1 + p2, p3, c);
            lemma_count_concat(p1 + p2 + p3, p4, c);
            lemma_count_concat(p1 + p2 + p3 + p4, p5, c);
            lemma_count_concat(p1 + p2 + p3 + p4 + p5, p6, c);
            lemma_count_concat(p1 + p2 + p3 + p4 + p5 + p6, p7, c);
            lemma_count_concat(p1 + p2 + p3 + p4 + p5 + p6 + p7, p8, c);
            lemma_count_concat(p1 + p2 + p3 + p4 + p5 + p6 + p7 + p8, p9, c);
        },
        Clip::Audio(a) => {
            let p1 = tag(MaterialCategory::Speed, seq![a.speed_id@]);
            let p2 = tag(MaterialCategory::AudioFade, opt(a.fade_id));
            let p3 = tag(MaterialCategory::AudioEffect, strs(a.effect_ids@));
            lemma_count_tag(MaterialCategory::Speed, seq![a.speed_id@], c);
            lemma_count_tag(MaterialCategory::AudioFade, opt(a.fade_id), c);
            lemma_count_tag(MaterialCategory::AudioEffect, strs(a.effect_ids@), c);
            lemma_count_concat(p1, p2, c);
            lemma_count_concat(p1 + p2, p3, c);
        },
        Clip::Text(t) => {
            let p1 = tag(MaterialCategory::Animation, opt(t.animation_id));
            let p2 = tag(MaterialCategory::TextShape, opt(t.bubble_id));
            let p3 = tag(MaterialCategory::TextEffect, opt(t.effect_id));
            lemma_count_tag(MaterialCategory::Animation, opt(t.animation_id), c);
            lemma_count_tag(MaterialCategory::TextShape, opt(t.bubble_id), c);
            lemma_count_tag(MaterialCategory::TextEffect, opt(t.effect_id), c);
            lemma_count_concat(p1, p2, c);
            lemma_count_concat(p1 + p2, p3, c);
        },
        Clip::Image(i) => {
            let p1 = tag(MaterialCategory::Speed, seq![i.speed_id@]);
            let p2 = tag(MaterialCategory::BackgroundFilling, opt(i.background_id));
            let p3 = tag(MaterialCategory::Animation, opt(i.animation_id));
            lemma_count_tag(MaterialCategory::Speed, seq![i.speed_id@], c);
            lemma_count_tag(MaterialCategory::BackgroundFilling, opt(i.background_id), c);
            lemma_count_tag(MaterialCategory::Animation, opt(i.animation_id), c);
            lemma_count_concat(p1, p2, c);
            lemma_count_concat(p1 + p2, p3, c);
        },
    }
}

proof fn lemma_clips_counts(clips: Seq<Clip>)
    ensures
        count_in(clips_materials(clips), MaterialCategory::Speed) == speed_clips(clips),
        clips_texts(clips).len() == text_clips(clips),
    decreases clips.len(),
{
    if clips.len() > 0 {
        lemma_clips_counts(clips.drop_last());
        lemma_count_concat(clips_materials(clips.drop_last()), clip_materials(clips.last()), MaterialCategory::Speed);
        lemma_clip_speed_count(clips.last());
    }
}

/// A draft lists one speed material for each clip that plays at a speed of
/// its own (every clip but a text), and one text material for each text
/// clip.
pub proof fn lemma_draft_material_counts(tracks: Seq<Track>)
    ensures
        count_in(tracks_materials(tracks), MaterialCategory::Speed) == tracks_speed_clips(tracks),
        tracks_texts(tracks).len() == tracks_text_clips(tracks),
    decreases tracks.len(),
{
    if tracks.len() > 0 {
        lemma_draft_material_counts(tracks.drop_last());
        lemma_clips_counts(tracks.last().clips@);
        lemma_count_concat(tracks_materials(tracks.drop_last()), clips_materials(tracks.last().clips@), MaterialCategory::Speed);
    }
}

} // verus!
