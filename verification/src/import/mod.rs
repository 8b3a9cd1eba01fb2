//! Turning files into sources: what kind of file it is, what its records say, and when a
//! recording started.
pub mod audio;
pub mod laws;
pub mod probe;
pub mod sqlite_log;
pub mod start_time;
pub mod tlog;
pub mod tlog_laws;
pub mod video;

use vstd::prelude::*;

use crate::text::{lowercase, lowercased, same};

verus! {

pub const VIDEO_EXTS: [&'static str; 6] = ["mp4", "mov", "avi", "mkv", "webm", "m4v"];

pub const AUDIO_EXTS: [&'static str; 10] = [
    "m4a",
    "mp3",
    "wav",
    "aac",
    "flac",
    "ogg",
    "oga",
    "ogx",
    "opus",
    "wma",
];

/// How a file is to be read.
#[derive(Clone, Copy, PartialEq, Eq, Structural, Debug)]
pub enum FileKind {
    Video,
    Audio,
    Tlog,
    /// No extension, or an unrecognized one: the content has to say.
    Unnamed,
}

/// Whether a text is in a list.
pub open spec fn listed(list: Seq<&'static str>, text: Seq<char>) -> bool {
    exists|i: int| 0 <= i < list.len() && (#[trigger] list[i])@ == text
}

/// The kind of file that a lower case extension stands for.
pub open spec fn kind_spec(extension: Seq<char>) -> FileKind {
    if listed(VIDEO_EXTS@, extension) {
        FileKind::Video
    } else if listed(AUDIO_EXTS@, extension) {
        FileKind::Audio
    } else if extension == "tlog"@ {
        FileKind::Tlog
    } else {
        FileKind::Unnamed
    }
}

/// The kind of file that a lower case extension stands for.
pub fn kind_of(extension: &str) -> (r: FileKind)
    ensures
        r == kind_spec(extension@),
{
    let mut i: usize = 0;
    while i < 6
        invariant
            i <= 6,
            forall|k: int| 0 <= k < i ==> (#[trigger] VIDEO_EXTS@[k])@ != extension@,
        decreases 6 - i,
    {
        if same(VIDEO_EXTS[i], extension) {
            assert(VIDEO_EXTS@[i as int]@ == extension@);
            return FileKind::Video;
        }
        i += 1;
    }
    let mut j: usize = 0;
    while j < 10
        invariant
            j <= 10,
            !listed(VIDEO_EXTS@, extension@),
            forall|k: int| 0 <= k < j ==> (#[trigger] AUDIO_EXTS@[k])@ != extension@,
        decreases 10 - j,
    {
        if same(AUDIO_EXTS[j], extension) {
            assert(AUDIO_EXTS@[j as int]@ == extension@);
            return FileKind::Audio;
        }
        j += 1;
    }
    if same(extension, "tlog") {
        FileKind::Tlog
    } else {
        FileKind::Unnamed
    }
}

/// The kind of file that an extension stands for, whatever its case.
pub fn detect(extension: &str) -> (r: FileKind)
    ensures
        r == kind_spec(lowercased(extension@)),
{
    kind_of(lowercase(extension).as_str())
}

/// What a file's first bytes say.
#[derive(Clone, Copy, PartialEq, Eq, Structural, Debug)]
pub enum Sniffed {
    Sqlite,
    Tlog,
    Unknown,
}

/// The bytes that every SQLite database starts with: `SQLite format 3` and a zero.
pub const SQLITE_MAGIC: [u8; 16] = [
    0x53,
    0x51,
    0x4C,
    0x69,
    0x74,
    0x65,
    0x20,
    0x66,
    0x6F,
    0x72,
    0x6D,
    0x61,
    0x74,
    0x20,
    0x33,
    0x00,
];

/// What a file's first bytes say. A telemetry record starts with an 8-byte timestamp followed
/// by a MAVLink v1 (`0xFE`) or v2 (`0xFD`) magic byte.
pub open spec fn sniff_spec(head: Seq<u8>) -> Sniffed {
    if head.len() >= 16 && head.take(16) == SQLITE_MAGIC@ {
        Sniffed::Sqlite
    } else if head.len() > 8 && (head[8] == 0xFD || head[8] == 0xFE) {
        Sniffed::Tlog
    } else {
        Sniffed::Unknown
    }
}

/// What a file's first bytes say.
pub fn sniff(head: &[u8]) -> (r: Sniffed)
    ensures
        r == sniff_spec(head@),
{
    let mut sqlite = head.len() >= 16;
    if sqlite {
        let mut i: usize = 0;
        while i < 16
            invariant
                i <= 16 <= head@.len(),
                sqlite == (forall|k: int| 0 <= k < i ==> head@[k] == #[trigger] SQLITE_MAGIC@[k]),
            decreases 16 - i,
        {
            if head[i] != SQLITE_MAGIC[i] {
                assert(head@[i as int] != SQLITE_MAGIC@[i as int]);
                sqlite = false;
            }
            i += 1;
        }
        proof {
            if sqlite {
                assert(head@.take(16) =~= SQLITE_MAGIC@);
            } else if head@.take(16) == SQLITE_MAGIC@ {
                assert forall|k: int| 0 <= k < 16 implies head@[k]
                    == #[trigger] SQLITE_MAGIC@[k] by {
                    assert(head@.take(16)[k] == head@[k]);
                }
            }
        }
    }
    if sqlite {
        Sniffed::Sqlite
    } else if head.len() > 8 && (head[8] == 0xFD || head[8] == 0xFE) {
        Sniffed::Tlog
    } else {
        Sniffed::Unknown
    }
}

} // verus!
