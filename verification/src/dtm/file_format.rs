//! The video container formats that are streamed without conversion.

use vstd::prelude::*;
use vstd::string::*;

verus! {

/// A container format that the player accepts as it is.
#[derive(Debug, Clone, Copy)]
pub enum VideoFormat {
    MP4,
}

/// The extension of MP4 files.
pub open spec fn mp4_ext() -> Seq<char> {
    seq!['m', 'p', '4']
}

/// The extension that stands for a format.
pub open spec fn format_ext(format: VideoFormat) -> Seq<char> {
    match format {
        VideoFormat::MP4 => mp4_ext(),
    }
}

/// The format that an extension names, if any.
pub open spec fn format_of_ext(ext: Seq<char>) -> Option<VideoFormat> {
    if ext == mp4_ext() {
        Some(VideoFormat::MP4)
    } else {
        None
    }
}

/// The error of reading a format from a text that names none.
#[derive(Debug)]
pub struct ParseEnumError;

impl ParseEnumError {
    /// The message of this error.
    pub fn message(&self) -> (res: String)
        ensures
            res@ == "Invalid value for enum"@,
    {
        String::from_str("Invalid value for enum")
    }
}

impl VideoFormat {
    /// The file extension of this format.
    pub fn to_str(&self) -> (res: &str)
        ensures
            res@ == format_ext(*self),
    {
        proof {
            reveal_strlit("mp4");
        }
        match self {
            VideoFormat::MP4 => {
                let s = "mp4";
                assert(s@ =~= mp4_ext());
                s
            },
        }
    }

    /// The format that the text `s` names: `"mp4"` names MP4, and any other
    /// text is an error.
    pub fn from_str(s: &str) -> (res: Result<VideoFormat, ParseEnumError>)
        ensures
            res is Ok <==> format_of_ext(s@) is Some,
            res matches Ok(f) ==> Some(f) == format_of_ext(s@),
    {
        proof {
            reveal_strlit("mp4");
        }
        let mp4 = "mp4";
        assert(mp4@ =~= mp4_ext());
        if String::from_str(s) == String::from_str(mp4) {
            Ok(VideoFormat::MP4)
        } else {
            Err(ParseEnumError)
        }
    }
}

impl std::str::FromStr for VideoFormat {
    type Err = ParseEnumError;

    fn from_str(s: &str) -> (res: Result<VideoFormat, ParseEnumError>)
        ensures
            res is Ok <==> format_of_ext(s@) is Some,
            res matches Ok(f) ==> Some(f) == format_of_ext(s@),
    {
        VideoFormat::from_str(s)
    }
}

/// Only the text `mp4` names a format that plays as it is, and MP4 is
/// written `mp4`.
pub proof fn lemma_only_mp4_is_playable(ext: Seq<char>)
    ensures
        format_of_ext(ext) is Some <==> ext == seq!['m', 'p', '4'],
        format_of_ext(ext) is Some ==> format_of_ext(ext) == Some(VideoFormat::MP4),
        format_ext(VideoFormat::MP4) == seq!['m', 'p', '4'],
{
}

/// Reading back the extension of a format gives that format.
pub proof fn lemma_format_roundtrip(format: VideoFormat)
    ensures
        format_of_ext(format_ext(format)) == Some(format),
{
}

} // verus!
