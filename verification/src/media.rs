//! Which decoder an imported media file goes to, by its extension.
//!
//! Decoding itself (WAV reading, MP3 and AAC decoding to floating-point PCM)
//! happens outside the library.
use vstd::prelude::*;

use crate::text::{ascii_lower_chars, chars_are, chars_of, lower_seq, push_chars, push_str};

verus! {

/// The media formats an import accepts.
#[derive(Debug, Clone, Copy, PartialEq, Eq, Structural)]
pub enum MediaFormat {
    Wav,
    Mp3,
    Mp4,
    M4a,
}

/// The format of a lower-cased extension, if it is one of the accepted ones.
pub open spec fn format_of_ext(ext: Seq<char>) -> Option<MediaFormat> {
    if ext == "wav"@ {
        Some(MediaFormat::Wav)
    } else if ext == "mp3"@ {
        Some(MediaFormat::Mp3)
    } else if ext == "mp4"@ {
        Some(MediaFormat::Mp4)
    } else if ext == "m4a"@ {
        Some(MediaFormat::M4a)
    } else {
        None
    }
}

/// The refusal of an extension, which names the accepted formats.
pub open spec fn unsupported_message(ext: Seq<char>) -> Seq<char> {
    "不支持的录音格式: ."@ + ext + "（支持 WAV、MP3、MP4/M4A）"@
}

/// The format of a media file with extension `extension` (without the dot;
/// empty when the file has none), compared case-insensitively in ASCII. Any
/// other extension is refused with a message naming the accepted formats.
pub fn media_format(extension: &str) -> (r: Result<MediaFormat, String>)
    ensures
        match r {
            Ok(f) => format_of_ext(lower_seq(extension@)) == Some(f),
            Err(msg) => format_of_ext(lower_seq(extension@)) is None && msg@ == unsupported_message(
                lower_seq(extension@),
            ),
        },
{
    let raw = chars_of(extension);
    let ext = ascii_lower_chars(raw.as_slice());
    if chars_are(ext.as_slice(), "wav") {
        Ok(MediaFormat::Wav)
    } else if chars_are(ext.as_slice(), "mp3") {
        Ok(MediaFormat::Mp3)
    } else if chars_are(ext.as_slice(), "mp4") {
        Ok(MediaFormat::Mp4)
    } else if chars_are(ext.as_slice(), "m4a") {
        Ok(MediaFormat::M4a)
    } else {
        let mut msg = String::new();
        push_str(&mut msg, "不支持的录音格式: .");
        push_chars(&mut msg, ext.as_slice());
        push_str(&mut msg, "（支持 WAV、MP3、MP4/M4A）");
        Err(msg)
    }
}

} // verus!
