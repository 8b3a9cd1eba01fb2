//! Reading what `ffprobe` reports of a recording: a JSON document with a `format` object and a
//! list of `streams`.
use vstd::prelude::*;

use crate::text::{chars_of, dec, find_char, first_of, opt_view, push_dec, same, text_of};

verus! {

broadcast use vstd::seq_lib::group_seq_properties;

/// Whether bytes are a JSON document.
pub uninterp spec fn json_is_valid(json: Seq<u8>) -> bool;

/// The text at a place of a JSON document, a place being a JSON Pointer.
pub uninterp spec fn json_text(json: Seq<u8>, pointer: Seq<char>) -> Option<Seq<char>>;

/// The whole number at a place of a JSON document.
pub uninterp spec fn json_number(json: Seq<u8>, pointer: Seq<char>) -> Option<u64>;

/// The length of the list at a place of a JSON document.
pub uninterp spec fn json_length(json: Seq<u8>, pointer: Seq<char>) -> Option<usize>;

/// `serde_json::from_slice`: whether bytes are a JSON document.
#[verifier::external_body]
fn is_json(json: &[u8]) -> (r: bool)
    ensures
        r == json_is_valid(json@),
{
    serde_json::from_slice::<serde_json::Value>(json).is_ok()
}

/// `serde_json::Value::pointer` and `as_str`: the text at a place, `None` where there is no
/// such place or no text at it. What a document holds is left to the name [`json_text`].
#[verifier::external_body]
fn text_at(json: &[u8], pointer: &str) -> (r: Option<String>)
    ensures
        opt_view(r) == json_text(json@, pointer@),
{
    let value: serde_json::Value = serde_json::from_slice(json).ok()?;
    value.pointer(pointer)?.as_str().map(str::to_owned)
}

/// `serde_json::Value::pointer` and `as_u64`: the whole number at a place. What a document holds
/// is left to the name [`json_number`].
#[verifier::external_body]
fn number_at(json: &[u8], pointer: &str) -> (r: Option<u64>)
    ensures
        r == json_number(json@, pointer@),
{
    let value: serde_json::Value = serde_json::from_slice(json).ok()?;
    value.pointer(pointer)?.as_u64()
}

/// `serde_json::Value::pointer` and `as_array`: how long the list at a place is. What a document
/// holds is left to the name [`json_length`].
#[verifier::external_body]
fn length_at(json: &[u8], pointer: &str) -> (r: Option<usize>)
    ensures
        r == json_length(json@, pointer@),
{
    let value: serde_json::Value = serde_json::from_slice(json).ok()?;
    value.pointer(pointer)?.as_array().map(Vec::len)
}

/// Why a report is of no use.
#[derive(Clone, Copy, PartialEq, Eq, Structural, Debug)]
pub enum ProbeError {
    NotJson,
    NoVideoStream,
}

impl ProbeError {
    pub fn message(self) -> (r: &'static str)
        ensures
            r@ == match self {
                ProbeError::NotJson => "parsing ffprobe JSON"@,
                ProbeError::NoVideoStream => "no video stream found"@,
            },
    {
        match self {
            ProbeError::NotJson => "parsing ffprobe JSON",
            ProbeError::NoVideoStream => "no video stream found",
        }
    }
}

/// What a report says of a video.
pub struct VideoProbe {
    pub width: u32,
    pub height: u32,
    /// `30000/1001`.
    pub frame_rate: String,
    /// Seconds, of the file and of its video stream.
    pub duration: Option<String>,
    pub stream_duration: Option<String>,
    pub creation_time: Option<String>,
}

/// What a report says of an audio recording.
pub struct AudioProbe {
    /// Seconds.
    pub duration: Option<String>,
    pub creation_time: Option<String>,
}

/// The place of a stream's field.
pub open spec fn stream_pointer(i: nat, field: Seq<char>) -> Seq<char> {
    "/streams/"@ + dec(i) + field
}

fn pointer_to(i: usize, field: &str) -> (r: String)
    ensures
        r@ == stream_pointer(i as nat, field@),
{
    let mut out = "/streams/".to_owned();
    push_dec(&mut out, i as u64);
    out.append(field);
    out
}

/// The first `video` among the kinds of streams, from `from` on.
pub open spec fn video_from(kinds: Seq<Option<Seq<char>>>, from: int) -> Option<int>
    decreases kinds.len() - from,
{
    if from < 0 || from >= kinds.len() {
        None
    } else if kinds[from] == Some("video"@) {
        Some(from)
    } else {
        video_from(kinds, from + 1)
    }
}

/// Optional strings, as contracts speak of them.
pub open spec fn opt_views(kinds: Seq<Option<String>>) -> Seq<Option<Seq<char>>> {
    kinds.map_values(|k: Option<String>| opt_view(k))
}

/// The first stream of a video, given each stream's kind.
pub fn first_video(kinds: &Vec<Option<String>>) -> (r: Option<usize>)
    ensures
        match r {
            Some(i) => video_from(opt_views(kinds@), 0) == Some(i as int) && i < kinds@.len(),
            None => video_from(opt_views(kinds@), 0) is None,
        },
{
    let mut i: usize = 0;
    let ghost views = opt_views(kinds@);
    while i < kinds.len()
        invariant
            i <= kinds@.len(),
            views == opt_views(kinds@),
            video_from(views, 0) == video_from(views, i as int),
        decreases kinds@.len() - i,
    {
        assert(views[i as int] == opt_view(kinds@[i as int]));
        if let Some(kind) = &kinds[i] {
            if same(kind.as_str(), "video") {
                return Some(i);
            }
        }
        i += 1;
    }
    None
}

/// The kinds of the streams that a report lists.
pub open spec fn stream_kinds(json: Seq<u8>) -> Seq<Option<Seq<char>>> {
    let n = match json_length(json, "/streams"@) {
        Some(n) => n as nat,
        None => 0,
    };
    Seq::new(n, |i: int| json_text(json, stream_pointer(i as nat, "/codec_type"@)))
}

/// The first of two texts that is there.
pub open spec fn either(a: Option<Seq<char>>, b: Option<Seq<char>>) -> Option<Seq<char>> {
    if a is Some {
        a
    } else {
        b
    }
}

/// What a report says of the video in its stream `i`. A missing size is zero, and a missing
/// frame rate 30.
pub open spec fn says_of_video(p: VideoProbe, json: Seq<u8>, i: nat) -> bool {
    &&& p.width == match json_number(json, stream_pointer(i, "/width"@)) {
        Some(n) => n as int % 0x1_0000_0000,
        None => 0,
    }
    &&& p.height == match json_number(json, stream_pointer(i, "/height"@)) {
        Some(n) => n as int % 0x1_0000_0000,
        None => 0,
    }
    &&& p.frame_rate@ == match json_text(json, stream_pointer(i, "/r_frame_rate"@)) {
        Some(rate) => rate,
        None => "30/1"@,
    }
    &&& opt_view(p.duration) == json_text(json, "/format/duration"@)
    &&& opt_view(p.stream_duration) == json_text(json, stream_pointer(i, "/duration"@))
    &&& opt_view(p.creation_time) == either(
        json_text(json, "/format/tags/creation_time"@),
        json_text(json, stream_pointer(i, "/tags/creation_time"@)),
    )
}

fn low_word(n: Option<u64>) -> (r: u32)
    ensures
        r == match n {
            Some(n) => n as int % 0x1_0000_0000,
            None => 0,
        },
{
    match n {
        Some(n) => (n % 0x1_0000_0000) as u32,
        None => 0,
    }
}

/// Reads the report of a video: of its first video stream, and of the file.
pub fn probe_video(json: &[u8]) -> (r: Result<VideoProbe, ProbeError>)
    ensures
        r == Err::<VideoProbe, ProbeError>(ProbeError::NotJson) <==> !json_is_valid(json@),
        r == Err::<VideoProbe, ProbeError>(ProbeError::NoVideoStream) <==> json_is_valid(json@)
            && video_from(stream_kinds(json@), 0) is None,
        match r {
            Ok(p) => json_is_valid(json@) && match video_from(stream_kinds(json@), 0) {
                Some(i) => says_of_video(p, json@, i as nat),
                None => false,
            },
            Err(_) => true,
        },
{
    if !is_json(json) {
        return Err(ProbeError::NotJson);
    }
    let n: usize = match length_at(json, "/streams") {
        Some(n) => n,
        None => 0,
    };
    let mut kinds: Vec<Option<String>> = Vec::new();
    let mut k: usize = 0;
    while k < n
        invariant
            k <= n == stream_kinds(json@).len(),
            kinds@.len() == k,
            forall|i: int|
                0 <= i < k ==> opt_view(#[trigger] kinds@[i]) == stream_kinds(json@)[i],
        decreases n - k,
    {
        kinds.push(text_at(json, pointer_to(k, "/codec_type").as_str()));
        k += 1;
    }
    assert(opt_views(kinds@) =~= stream_kinds(json@));
    match first_video(&kinds) {
        None => Err(ProbeError::NoVideoStream),
        Some(i) => {
            let width = low_word(number_at(json, pointer_to(i, "/width").as_str()));
            let height = low_word(number_at(json, pointer_to(i, "/height").as_str()));
            let frame_rate = match text_at(json, pointer_to(i, "/r_frame_rate").as_str()) {
                Some(rate) => rate,
                None => "30/1".to_owned(),
            };
            let creation_time = match text_at(json, "/format/tags/creation_time") {
                Some(t) => Some(t),
                None => text_at(json, pointer_to(i, "/tags/creation_time").as_str()),
            };
            Ok(
                VideoProbe {
                    width,
                    height,
                    frame_rate,
                    duration: text_at(json, "/format/duration"),
                    stream_duration: text_at(json, pointer_to(i, "/duration").as_str()),
                    creation_time,
                },
            )
        },
    }
}

/// Reads the report of an audio recording.
pub fn probe_audio(json: &[u8]) -> (r: Result<AudioProbe, ProbeError>)
    ensures
        r is Err <==> !json_is_valid(json@),
        match r {
            Ok(p) => opt_view(p.duration) == json_text(json@, "/format/duration"@) && opt_view(
                p.creation_time,
            ) == json_text(json@, "/format/tags/creation_time"@),
            Err(e) => e == ProbeError::NotJson,
        },
{
    if !is_json(json) {
        return Err(ProbeError::NotJson);
    }
    Ok(
        AudioProbe {
            duration: text_at(json, "/format/duration"),
            creation_time: text_at(json, "/format/tags/creation_time"),
        },
    )
}

/// The two sides of a frame rate's first slash, `None` where there is none.
pub fn split_rate(rate: &str) -> (r: Option<(String, String)>)
    ensures
        match r {
            Some((num, den)) => first_of(rate@, '/') < rate@.len() && num@ == rate@.take(
                first_of(rate@, '/'),
            ) && den@ == rate@.skip(first_of(rate@, '/') + 1),
            None => first_of(rate@, '/') == rate@.len(),
        },
{
    let chars = chars_of(rate);
    let i = find_char(&chars, '/');
    if i < chars.len() {
        let num = text_of(&chars, 0, i);
        let den = text_of(&chars, i + 1, chars.len());
        assert(num@ =~= rate@.take(i as int));
        assert(den@ =~= rate@.skip(i + 1));
        Some((num, den))
    } else {
        None
    }
}

/// A recording's length: the file's own word where it has a usable one, else the stream's, else
/// nothing.
pub fn best_duration(file: Option<i64>, stream: Option<i64>) -> (r: i64)
    ensures
        r == match (file, stream) {
            (Some(d), _) => d,
            (None, Some(d)) => d,
            (None, None) => 0,
        },
{
    match file {
        Some(d) => d,
        None => match stream {
            Some(d) => d,
            None => 0,
        },
    }
}

} // verus!
