//! Following the progress that the converter prints while it works.

use vstd::prelude::*;
use vstd::utf8::{decode_utf8, valid_utf8};
use vstd::string::*;
use crate::dtm::file_format::{format_ext, VideoFormat};
use crate::service::files_service::strings_view;
use crate::utils::{captures_ms, captures_view, ms_from_captures};

verus! {

/// Running the converter and following its output.
pub struct ConverterService {}

/// The arguments of the converter: read `source_file`, keep the video stream,
/// encode the audio as AAC, and write MP4 with the index at the start to
/// `cache_file`.
pub open spec fn ffmpeg_args_spec(source_file: Seq<char>, cache_file: Seq<char>) -> Seq<Seq<char>> {
    seq![
        "-i"@,
        source_file,
        "-movflags"@,
        "+faststart"@,
        "-c:v"@,
        "copy"@,
        "-c:a"@,
        "aac"@,
        "-f"@,
        format_ext(VideoFormat::MP4),
        cache_file,
    ]
}

impl ConverterService {
    /// The arguments that convert `source_file` into `cache_file`.
    pub fn ffmpeg_args(source_file: &str, cache_file: &str) -> (res: Vec<String>)
        ensures
            strings_view(res@) == ffmpeg_args_spec(source_file@, cache_file@),
    {
        let mut args: Vec<String> = Vec::new();
        args.push(String::from_str("-i"));
        args.push(String::from_str(source_file));
        args.push(String::from_str("-movflags"));
        args.push(String::from_str("+faststart"));
        args.push(String::from_str("-c:v"));
        args.push(String::from_str("copy"));
        args.push(String::from_str("-c:a"));
        args.push(String::from_str("aac"));
        args.push(String::from_str("-f"));
        args.push(String::from_str(VideoFormat::MP4.to_str()));
        args.push(String::from_str(cache_file));
        assert(strings_view(args@) =~= ffmpeg_args_spec(source_file@, cache_file@));
        args
    }
}

/// What `Regex::new(pattern)` and then `captures(text)` give: the capture
/// groups of the leftmost-first match (group 0 the whole match, `None` for a
/// group that took no part), or `None` when nothing matches or the pattern
/// does not compile.
pub uninterp spec fn regex_first_captures(pattern: Seq<char>, text: Seq<char>) -> Option<
    Seq<Option<Seq<char>>>,
>;

/// What `String::from_utf8_lossy` gives for `bytes`.
pub uninterp spec fn utf8_lossy(bytes: Seq<u8>) -> Seq<char>;

/// The view of optional capture groups.
pub open spec fn opt_captures_view(caps: Option<Vec<Option<String>>>) -> Option<
    Seq<Option<Seq<char>>>,
> {
    match caps {
        Some(c) => Some(captures_view(c@)),
        None => None,
    }
}

/// `regex::Regex::new(pattern)` then `Regex::captures(text)`, each group
/// taken as an owned string.
///
/// The result is named by `regex_first_captures`; an error of `Regex::new`
/// gives `None`. Nothing more is stated of what the matcher finds.
#[verifier::external_body]
fn first_captures(pattern: &str, text: &str) -> (res: Option<Vec<Option<String>>>)
    ensures
        opt_captures_view(res) == regex_first_captures(pattern@, text@),
{
    let re = match regex::Regex::new(pattern) {
        Ok(re) => re,
        Err(_) => return None,
    };
    let caps = re.captures(text)?;
    let mut groups = Vec::new();
    for group in caps.iter() {
        groups.push(group.map(|m| m.as_str().to_string()));
    }
    Some(groups)
}

/// `String::from_utf8_lossy(bytes)`, as an owned string.
///
/// The result is named by `utf8_lossy`; on valid UTF-8 it is the decoded
/// text, as the documentation of `from_utf8_lossy` states. What replaces
/// invalid sequences is left to the name.
#[verifier::external_body]
fn decode_lossy(bytes: &[u8]) -> (res: String)
    ensures
        res@ == utf8_lossy(bytes@),
        valid_utf8(bytes@) ==> res@ == decode_utf8(bytes@),
{
    String::from_utf8_lossy(bytes).into_owned()
}

/// The pattern of the total duration that the converter prints first.
pub open spec fn duration_pattern() -> Seq<char> {
    "Duration: (\\d+):(\\d+):(\\d+)\\.(\\d+)"@
}

/// The pattern of the position that the converter has reached.
pub open spec fn time_pattern() -> Seq<char> {
    "time=(\\d+):(\\d+):(\\d+)\\.(\\d+)"@
}

/// What one piece of converter output tells.
pub enum OutputEvent {
    /// Nothing to report.
    Silent,
    /// The converter reached `converted_ms` of a video of `duration` ms.
    Progress { duration: u64, converted_ms: u64 },
    /// A timestamp was found whose numbers cannot be read or overflow.
    Unreadable,
}

/// The duration after a piece of output, and what the piece tells, from the
/// captures of the duration pattern (looked for only while the duration is
/// still 0) and of the time pattern.
pub open spec fn observe_spec(
    duration: u64,
    duration_caps: Option<Seq<Option<Seq<char>>>>,
    time_caps: Option<Seq<Option<Seq<char>>>>,
) -> (u64, OutputEvent) {
    if duration == 0 && duration_caps is Some && captures_ms(duration_caps->0) is None {
        (duration, OutputEvent::Unreadable)
    } else {
        let d = if duration == 0 && duration_caps is Some {
            captures_ms(duration_caps->0)->0
        } else {
            duration
        };
        match time_caps {
            Some(c) => match captures_ms(c) {
                Some(ms) => (d, OutputEvent::Progress { duration: d, converted_ms: ms }),
                None => (d, OutputEvent::Unreadable),
            },
            None => (d, OutputEvent::Silent),
        }
    }
}

/// What has been learnt from the converter's output so far: the duration of
/// the video in milliseconds, 0 until it is known.
pub struct ProgressTracker {
    pub duration: u64,
}

impl ProgressTracker {
    /// A tracker that knows no duration yet.
    pub fn new() -> (res: ProgressTracker)
        ensures
            res.duration == 0,
    {
        ProgressTracker { duration: 0 }
    }

    /// Takes in the captures found in one piece of output.
    pub fn apply_captures(
        &mut self,
        duration_caps: Option<Vec<Option<String>>>,
        time_caps: Option<Vec<Option<String>>>,
    ) -> (res: OutputEvent)
        ensures
            (final(self).duration, res) == observe_spec(
                old(self).duration,
                opt_captures_view(duration_caps),
                opt_captures_view(time_caps),
            ),
    {
        if self.duration == 0 {
            match duration_caps {
                Some(caps) => match ms_from_captures(&caps) {
                    Some(ms) => {
                        self.duration = ms;
                    },
                    None => {
                        return OutputEvent::Unreadable;
                    },
                },
                None => {},
            }
        }
        match time_caps {
            Some(caps) => match ms_from_captures(&caps) {
                Some(ms) => OutputEvent::Progress { duration: self.duration, converted_ms: ms },
                None => OutputEvent::Unreadable,
            },
            None => OutputEvent::Silent,
        }
    }

    /// Reads one piece of the converter's error output: learns the duration
    /// while it is unknown, and reports the position reached, if the piece
    /// tells it.
    pub fn observe_output(&mut self, chunk: &[u8]) -> (res: OutputEvent)
        ensures
            (final(self).duration, res) == observe_spec(
                old(self).duration,
                if old(self).duration == 0 {
                    regex_first_captures(duration_pattern(), utf8_lossy(chunk@))
                } else {
                    None
                },
                regex_first_captures(time_pattern(), utf8_lossy(chunk@)),
            ),
    {
        let text = decode_lossy(chunk);
        let duration_caps = if self.duration == 0 {
            first_captures("Duration: (\\d+):(\\d+):(\\d+)\\.(\\d+)", text.as_str())
        } else {
            None
        };
        let time_caps = first_captures("time=(\\d+):(\\d+):(\\d+)\\.(\\d+)", text.as_str());
        self.apply_captures(duration_caps, time_caps)
    }
}

/// Once the duration is known it stays: with no duration captures looked for,
/// a piece of output leaves the duration as it was.
pub proof fn lemma_known_duration_is_kept(duration: u64, time_caps: Option<Seq<Option<Seq<char>>>>)
    requires
        duration != 0,
    ensures
        observe_spec(duration, None, time_caps).0 == duration,
{
}

/// Until the duration is known, the first readable duration that appears is
/// taken.
pub proof fn lemma_first_duration_is_taken(
    duration_caps: Seq<Option<Seq<char>>>,
    time_caps: Option<Seq<Option<Seq<char>>>>,
)
    requires
        captures_ms(duration_caps) is Some,
    ensures
        observe_spec(0, Some(duration_caps), time_caps).0 == captures_ms(duration_caps)->0,
{
}

} // verus!
