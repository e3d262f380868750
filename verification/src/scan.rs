//! Library-side pieces of media scanning: progress records, audio file
//! recognition by extension, metadata extraction setup, and device
//! descriptions. The filesystem walking itself lives with the host.

use vstd::prelude::*;
use vstd::string::{StringExecFns, StrSliceExecFns};

verus! {

/// Progress of a directory scan, reported every few files.
#[derive(Clone, Debug)]
pub struct ScanProgress {
    /// Files found so far.
    pub current: usize,
    /// Total files expected, when known.
    pub total: usize,
    /// The file most recently examined.
    pub current_file: String,
}

impl ScanProgress {
    /// A progress report part-way through a scan.
    pub fn new(current: usize, total: usize, current_file: String) -> (r: ScanProgress)
        ensures
            r.current == current,
            r.total == total,
            r.current_file@ == current_file@,
    {
        ScanProgress { current, total, current_file }
    }

    /// The final report: everything found, no file in flight.
    pub fn completed(total: usize) -> (r: ScanProgress)
        ensures
            r.current == total,
            r.total == total,
            r.current_file@ == Seq::<char>::empty(),
    {
        ScanProgress { current: total, total, current_file: String::new() }
    }
}

/// The index of the last occurrence of `c` in `s`, or -1.
pub open spec fn last_index_of(s: Seq<char>, c: char) -> int
    decreases s.len(),
{
    if s.len() == 0 {
        -1
    } else if s.last() == c {
        s.len() - 1
    } else {
        last_index_of(s.drop_last(), c)
    }
}

/// ASCII lowercase of one character; other characters pass unchanged.
pub open spec fn ascii_lower(c: char) -> char {
    if 'A' <= c <= 'Z' {
        ((c as u8) + 32) as char
    } else {
        c
    }
}

/// Whether the path's extension — the text after the last `.` of the last
/// path component, when that dot is not the component's first character —
/// matches `ext` after ASCII lowercasing.
pub open spec fn extension_matches(s: Seq<char>, ext: Seq<char>) -> bool {
    let slash = last_index_of(s, '/');
    let dot = last_index_of(s, '.');
    &&& dot > slash + 1
    &&& s.skip(dot + 1).map_values(|c: char| ascii_lower(c)) == ext
}

/// Whether the path carries one of the recognized audio extensions.
pub open spec fn is_audio_path(s: Seq<char>) -> bool {
    ||| extension_matches(s, "mp3"@)
    ||| extension_matches(s, "flac"@)
    ||| extension_matches(s, "m4a"@)
    ||| extension_matches(s, "aac"@)
    ||| extension_matches(s, "ogg"@)
    ||| extension_matches(s, "opus"@)
    ||| extension_matches(s, "wav"@)
    ||| extension_matches(s, "aiff"@)
}

/// Recognizes audio files by extension; the recursive directory walk that
/// feeds it paths belongs to the host shell.
pub struct FileScanner {
    /// The recognized extensions, lowercase.
    pub audio_extensions: Vec<String>,
    /// Upper bound on files per scan, to bound one operation's work.
    pub max_files_per_scan: usize,
}

impl FileScanner {
    /// A scanner for the eight common audio extensions, capped at 10000
    /// files per scan.
    pub fn new() -> (r: FileScanner)
        ensures
            r.audio_extensions@.len() == 8,
            r.audio_extensions@[0]@ == "mp3"@,
            r.audio_extensions@[1]@ == "flac"@,
            r.audio_extensions@[2]@ == "m4a"@,
            r.audio_extensions@[3]@ == "aac"@,
            r.audio_extensions@[4]@ == "ogg"@,
            r.audio_extensions@[5]@ == "opus"@,
            r.audio_extensions@[6]@ == "wav"@,
            r.audio_extensions@[7]@ == "aiff"@,
            r.max_files_per_scan == 10000,
    {
        let mut audio_extensions: Vec<String> = Vec::new();
        audio_extensions.push(String::from_str("mp3"));
        audio_extensions.push(String::from_str("flac"));
        audio_extensions.push(String::from_str("m4a"));
        audio_extensions.push(String::from_str("aac"));
        audio_extensions.push(String::from_str("ogg"));
        audio_extensions.push(String::from_str("opus"));
        audio_extensions.push(String::from_str("wav"));
        audio_extensions.push(String::from_str("aiff"));
        FileScanner { audio_extensions, max_files_per_scan: 10000 }
    }

    /// Whether the path names an audio file by its extension, compared
    /// ASCII-case-insensitively.
    pub fn is_audio_file(&self, path: &str) -> (r: bool)
        ensures
            r == is_audio_path(path@),
    {
        let len: usize = path.unicode_len();
        let mut slash: i128 = -1;
        let mut dot: i128 = -1;
        let mut i: usize = 0;
        while i < len
            invariant
                i <= len,
                len == path@.len(),
                slash as int == last_index_of(path@.take(i as int), '/'),
                dot as int == last_index_of(path@.take(i as int), '.'),
                -1 <= slash < i,
                -1 <= dot < i,
            decreases len - i,
        {
            let c: char = path.get_char(i);
            proof {
                assert(path@.take(i as int + 1).drop_last() =~= path@.take(i as int));
                assert(path@.take(i as int + 1).last() == path@[i as int]);
            }
            if c == '/' {
                slash = i as i128;
            } else if c == '.' {
                dot = i as i128;
            }
            i = i + 1;
        }
        proof {
            assert(path@.take(len as int) =~= path@);
        }
        if dot <= slash + 1 {
            proof {
                assert(!is_audio_path(path@));
            }
            return false;
        }
        let start: usize = (dot + 1) as usize;
        let r = self.ext_eq(path, start, "mp3") || self.ext_eq(path, start, "flac") || self.ext_eq(
            path,
            start,
            "m4a",
        ) || self.ext_eq(path, start, "aac") || self.ext_eq(path, start, "ogg") || self.ext_eq(
            path,
            start,
            "opus",
        ) || self.ext_eq(path, start, "wav") || self.ext_eq(path, start, "aiff");
        proof {
            assert(r == is_audio_path(path@));
        }
        r
    }

    /// Whether the path's tail from `start`, ASCII-lowercased, equals `ext`.
    fn ext_eq(&self, path: &str, start: usize, ext: &str) -> (r: bool)
        requires
            start <= path@.len(),
        ensures
            r == (path@.skip(start as int).map_values(|c: char| ascii_lower(c)) == ext@),
    {
        let len: usize = path.unicode_len();
        let elen: usize = ext.unicode_len();
        if len - start != elen {
            proof {
                assert(path@.skip(start as int).map_values(|c: char| ascii_lower(c)).len()
                    != ext@.len());
            }
            return false;
        }
        let mut i: usize = 0;
        while i < elen
            invariant
                i <= elen,
                start <= len,
                len == path@.len(),
                elen == ext@.len(),
                len - start == elen,
                forall|m: int|
                    0 <= m < i ==> ascii_lower(path@.skip(start as int)[m]) == (#[trigger] ext@[m]),
            decreases elen - i,
        {
            let c: char = path.get_char(start + i);
            let lc: char = if 'A' <= c && c <= 'Z' {
                (((c as u8) + 32) as char)
            } else {
                c
            };
            let e: char = ext.get_char(i);
            proof {
                assert(path@.skip(start as int)[i as int] == path@[start + i as int]);
                assert(lc == ascii_lower(path@.skip(start as int)[i as int]));
            }
            if lc != e {
                proof {
                    assert(path@.skip(start as int).map_values(|c: char| ascii_lower(c))[i as int]
                        != ext@[i as int]);
                }
                return false;
            }
            i = i + 1;
        }
        proof {
            assert(path@.skip(start as int).map_values(|c: char| ascii_lower(c)) =~= ext@);
        }
        true
    }
}

/// Reads tags, properties, and cover art out of audio files; the file
/// access and tag decoding live with the host shell.
pub struct MetadataExtractor;

impl MetadataExtractor {
    /// A metadata extractor.
    pub fn new() -> (r: MetadataExtractor) {
        MetadataExtractor
    }
}

/// Description of one audio device of the host sound system.
#[derive(Clone, Debug)]
pub struct AudioDevice {
    /// Unique identifier for the device.
    pub id: String,
    /// Human-readable device name.
    pub name: String,
    /// Whether this is an input device.
    pub is_input: bool,
    /// Whether this is the system default device.
    pub is_default: bool,
    /// Number of input channels, when known.
    pub input_channels: Option<u16>,
    /// Number of output channels, when known.
    pub output_channels: Option<u16>,
    /// Supported sample rates in hertz.
    pub sample_rates: Vec<u32>,
    /// Host audio interface name.
    pub host_api: String,
}

} // verus!
