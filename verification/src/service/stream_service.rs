//! Choosing the file that answers a request, planning and recording
//! conversions, and cutting a file into the chunk that one response carries.

use vstd::prelude::*;
use vstd::string::*;
use crate::dtm::chunk_details::ChunkDetails;
use crate::dtm::file_details::FileDetails;
use crate::dtm::file_format::{format_of_ext, mp4_ext, VideoFormat};
use crate::module::state::{map_lookup, State, StateView};
use crate::service::files_service::{parse_error_message, video_name_parts, FilesService};
use crate::text::{
    ascii_digits,
    ascii_digits_of,
    decimal,
    decimal_string,
    lemma_decimal_reads_back,
    parse_digits,
    parse_u64_digits,
};
use crate::utils::{
    file_path_spec,
    file_path_with_ext_spec,
    filename_spec,
    get_file_path,
    get_file_path_with_ext,
    get_filename,
};

verus! {

/// Choosing and reading the file that answers a request.
pub struct StreamService {}

/// The most bytes after `start` that one chunk reaches: a chunk spans at most
/// this many bytes plus one.
pub const CHUNK_SIZE: u64 = 1048576;

// ---------------------------------------------------------------------------
// Chunks and headers
// ---------------------------------------------------------------------------

/// The first byte that a `Range` header asks for: the number that all its
/// ASCII digits, read together, denote.
pub open spec fn range_start(range_header: Seq<char>) -> Option<u64> {
    parse_digits(ascii_digits_of(range_header))
}

/// Whether a chunk can be cut for this header and file size: the header holds
/// a number that fits, `start + CHUNK_SIZE` fits, and `start` is a byte of the
/// file.
pub open spec fn chunk_defined(range_header: Seq<char>, file_size: u64) -> bool {
    match range_start(range_header) {
        Some(start) => start + CHUNK_SIZE <= u64::MAX && 1 <= file_size && start <= file_size - 1,
        None => false,
    }
}

/// The last byte of the chunk that starts at `start`.
pub open spec fn chunk_end(start: u64, file_size: u64) -> int {
    if start + CHUNK_SIZE <= file_size - 1 {
        start + CHUNK_SIZE
    } else {
        file_size - 1
    }
}

/// The chunk of the file that answers `range_header`: from the requested byte
/// to `CHUNK_SIZE` bytes later, or to the end of the file if that comes first.
pub open spec fn chunk_matches(chunk: ChunkDetails, range_header: Seq<char>, file_size: u64) -> bool {
    &&& Some(chunk.start) == range_start(range_header)
    &&& chunk.end == chunk_end(chunk.start, file_size)
    &&& chunk.size == chunk.end - chunk.start + 1
}

impl StreamService {
    /// The chunk of a file of `file_size` bytes that answers `range_header`.
    pub fn get_chunk_details(range_header: &str, file_size: u64) -> (res: ChunkDetails)
        requires
            chunk_defined(range_header@, file_size),
        ensures
            chunk_matches(res, range_header@, file_size),
    {
        let digits = ascii_digits(range_header);
        let start = match parse_u64_digits(&digits) {
            Some(v) => v,
            None => 0,
        };
        let end = if start + CHUNK_SIZE <= file_size - 1 {
            start + CHUNK_SIZE
        } else {
            file_size - 1
        };
        let size = end - start + 1;
        ChunkDetails { size, start, end }
    }

    /// The chunk that answers `range_header`, or `None` where the header or
    /// the file size leaves it undefined.
    pub fn checked_chunk_details(range_header: &str, file_size: u64) -> (res: Option<ChunkDetails>)
        ensures
            res is Some <==> chunk_defined(range_header@, file_size),
            res matches Some(c) ==> chunk_matches(c, range_header@, file_size),
    {
        let digits = ascii_digits(range_header);
        match parse_u64_digits(&digits) {
            Some(start) => {
                if start <= u64::MAX - CHUNK_SIZE && 1 <= file_size && start <= file_size - 1 {
                    Some(StreamService::get_chunk_details(range_header, file_size))
                } else {
                    None
                }
            },
            None => None,
        }
    }
}

/// A chunk lies in the file, spans at most `CHUNK_SIZE + 1` bytes, and its
/// size is its number of bytes.
pub proof fn lemma_chunk_bounds(chunk: ChunkDetails, range_header: Seq<char>, file_size: u64)
    requires
        chunk_defined(range_header, file_size),
        chunk_matches(chunk, range_header, file_size),
    ensures
        chunk.start <= chunk.end < file_size,
        chunk.size == chunk.end - chunk.start + 1,
        1 <= chunk.size <= CHUNK_SIZE + 1,
{
}

/// Every byte of a file can start a chunk: when the header's digits read as a
/// byte of the file (0 included) and `start + CHUNK_SIZE` fits, the chunk is
/// defined, and it ends `CHUNK_SIZE` bytes later or at the last byte.
pub proof fn lemma_every_byte_starts_a_chunk(range_header: Seq<char>, file_size: u64, start: u64)
    requires
        parse_digits(ascii_digits_of(range_header)) == Some(start),
        start < file_size,
        start + CHUNK_SIZE <= u64::MAX,
    ensures
        chunk_defined(range_header, file_size),
        chunk_end(start, file_size) == if start + CHUNK_SIZE < file_size {
            start + CHUNK_SIZE
        } else {
            file_size - 1
        },
{
}

/// The views of a list of header pairs.
pub open spec fn headers_view(headers: Seq<(String, String)>) -> Seq<(Seq<char>, Seq<char>)> {
    headers.map_values(|h: (String, String)| (h.0@, h.1@))
}

/// The headers of a partial response that carries `start..=end` of a file of
/// `total` bytes.
pub open spec fn pipe_headers_spec(start: u64, end: u64, size: u64, total: u64) -> Seq<
    (Seq<char>, Seq<char>),
> {
    seq![
        ("Content-Range"@, "bytes "@ + decimal(start as nat) + "-"@ + decimal(end as nat) + "/"@
            + decimal(total as nat)),
        ("Content-Length"@, decimal(size as nat)),
        ("Content-Type"@, "video/mp4"@),
        ("Accept-Ranges"@, "bytes"@),
    ]
}

impl StreamService {
    /// The headers of the partial response that carries `chunk_details` of a
    /// file of `total` bytes.
    pub fn get_pipe_headers(chunk_details: &ChunkDetails, total: u64) -> (res: Vec<(String, String)>)
        ensures
            headers_view(res@) == pipe_headers_spec(
                chunk_details.start,
                chunk_details.end,
                chunk_details.size,
                total,
            ),
    {
        let start = decimal_string(chunk_details.start);
        let end = decimal_string(chunk_details.end);
        let total_text = decimal_string(total);
        let range = String::from_str("bytes ").concat(start.as_str()).concat("-").concat(
            end.as_str(),
        ).concat("/").concat(total_text.as_str());
        let length = decimal_string(chunk_details.size);
        let mut headers: Vec<(String, String)> = Vec::new();
        headers.push((String::from_str("Content-Range"), range));
        headers.push((String::from_str("Content-Length"), length));
        headers.push((String::from_str("Content-Type"), String::from_str("video/mp4")));
        headers.push((String::from_str("Accept-Ranges"), String::from_str("bytes")));
        assert(headers_view(headers@) =~= pipe_headers_spec(
            chunk_details.start,
            chunk_details.end,
            chunk_details.size,
            total,
        ));
        headers
    }
}

/// The `Content-Range` value is `bytes ` then the first byte, `-`, the last
/// byte and `/` the file size, each written in decimal so that it reads back
/// as that number; `Content-Length` reads back as the size.
pub proof fn lemma_pipe_headers_read_back(start: u64, end: u64, size: u64, total: u64)
    ensures
        pipe_headers_spec(start, end, size, total).len() == 4,
        pipe_headers_spec(start, end, size, total)[0].0 == "Content-Range"@,
        pipe_headers_spec(start, end, size, total)[1].0 == "Content-Length"@,
        exists|x: Seq<char>, y: Seq<char>, z: Seq<char>|
            pipe_headers_spec(start, end, size, total)[0].1 == "bytes "@ + x + seq!['-'] + y
                + seq!['/'] + z && #[trigger] parse_digits(x) == Some(start) && #[trigger] parse_digits(
                y,
            ) == Some(end) && #[trigger] parse_digits(z) == Some(total),
        parse_digits(pipe_headers_spec(start, end, size, total)[1].1) == Some(size),
{
    lemma_decimal_reads_back(start);
    lemma_decimal_reads_back(end);
    lemma_decimal_reads_back(size);
    lemma_decimal_reads_back(total);
    reveal_strlit("-");
    reveal_strlit("/");
    assert("-"@ =~= seq!['-']);
    assert("/"@ =~= seq!['/']);
    let x = decimal(start as nat);
    let y = decimal(end as nat);
    let z = decimal(total as nat);
    assert(pipe_headers_spec(start, end, size, total)[0].1 =~= "bytes "@ + x + seq!['-'] + y + seq!['/'] + z);
}

/// The headers of the chunk that answers a request describe that chunk: the
/// range read back from `Content-Range` is the chunk's first and last byte,
/// and `Content-Length` reads back as the number of bytes between them.
pub proof fn lemma_headers_describe_chunk(
    chunk: ChunkDetails,
    range_header: Seq<char>,
    file_size: u64,
)
    requires
        chunk_defined(range_header, file_size),
        chunk_matches(chunk, range_header, file_size),
    ensures
        exists|x: Seq<char>, y: Seq<char>, z: Seq<char>|
            pipe_headers_spec(chunk.start, chunk.end, chunk.size, file_size)[0].1 == "bytes "@ + x
                + seq!['-'] + y + seq!['/'] + z && #[trigger] parse_digits(x) == Some(chunk.start)
                && #[trigger] parse_digits(y) == Some(chunk.end) && #[trigger] parse_digits(z) == Some(
                file_size,
            ),
        parse_digits(pipe_headers_spec(chunk.start, chunk.end, chunk.size, file_size)[1].1) == Some(
            (chunk.end - chunk.start + 1) as u64,
        ),
{
    lemma_pipe_headers_read_back(chunk.start, chunk.end, chunk.size, file_size);
}

// ---------------------------------------------------------------------------
// Choosing the file to stream
// ---------------------------------------------------------------------------

/// The file that streams a video with extension `ext` and stem `name`: the
/// original when its format plays as it is, else its converted copy when the
/// cache records one, else none.
pub open spec fn stream_filename_spec(state: StateView, ext: Seq<char>, name: Seq<char>) -> Option<
    Seq<char>,
> {
    if format_of_ext(ext) is Some {
        Some(file_path_with_ext_spec(state.videos_path, name, ext))
    } else {
        match map_lookup(state.cache, name) {
            Some(c) => Some(file_path_spec(state.cache_path, c)),
            None => None,
        }
    }
}

/// The name of the converted copy of a video with stem `name`.
pub open spec fn cache_filename_spec(name: Seq<char>) -> Seq<char> {
    filename_spec(name, mp4_ext())
}

/// The files of one conversion: the name of the copy, where the copy is
/// written, and the original it is made from.
pub struct ConversionPlan {
    pub cache_filename: String,
    pub cache_file: String,
    pub source_file: String,
}

/// Where a request is answered from: a file that can be streamed now, or a
/// conversion that must run first.
pub enum StreamSource {
    Ready(String),
    Convert(FileDetails, ConversionPlan),
}

/// The plan of converting the video with extension `ext` and stem `name`.
pub open spec fn plan_matches(plan: ConversionPlan, state: StateView, ext: Seq<char>, name: Seq<char>) -> bool {
    &&& plan.cache_filename@ == cache_filename_spec(name)
    &&& plan.cache_file@ == file_path_spec(state.cache_path, cache_filename_spec(name))
    &&& plan.source_file@ == file_path_with_ext_spec(state.videos_path, name, ext)
}

impl StreamService {
    /// The file that streams the video `filename_details`, if there is one
    /// without converting; never an error.
    pub fn get_stream_filename(state: &State, filename_details: &FileDetails) -> (res: Result<
        Option<String>,
        String,
    >)
        ensures
            res matches Ok(o) && match o {
                Some(f) => stream_filename_spec(state@, filename_details@.0, filename_details@.1)
                    == Some(f@),
                None => stream_filename_spec(state@, filename_details@.0, filename_details@.1)
                    is None,
            },
    {
        let stream_filename = match VideoFormat::from_str(filename_details.ext.as_str()) {
            Ok(VideoFormat::MP4) => Some(
                get_file_path_with_ext(
                    state.get_videos_path().as_str(),
                    filename_details.name.as_str(),
                    filename_details.ext.as_str(),
                ),
            ),
            _ => {
                let cached_filename = state.get_cached_filename(filename_details.name.as_str());
                match cached_filename {
                    Some(cached_filename) => Some(
                        get_file_path(state.cache_path.as_str(), cached_filename.as_str()),
                    ),
                    _ => None,
                }
            },
        };
        Ok(stream_filename)
    }

    /// The files of converting the video `filename_details` to MP4.
    pub fn plan_conversion(state: &State, filename_details: &FileDetails) -> (res: ConversionPlan)
        ensures
            plan_matches(res, state@, filename_details@.0, filename_details@.1),
    {
        let cache_filename = get_filename(
            filename_details.name.as_str(),
            VideoFormat::MP4.to_str(),
        );
        let cache_file = get_file_path(state.cache_path.as_str(), cache_filename.as_str());
        let source_file = get_file_path_with_ext(
            state.get_videos_path().as_str(),
            filename_details.name.as_str(),
            filename_details.ext.as_str(),
        );
        ConversionPlan { cache_filename, cache_file, source_file }
    }

    /// Records a finished conversion of `filename_details` in the cache and
    /// gives the path of the converted copy.
    pub fn record_conversion(state: &mut State, filename_details: &FileDetails) -> (res: String)
        ensures
            final(state)@ == (StateView {
                cache: old(state)@.cache.insert(
                    filename_details@.1,
                    cache_filename_spec(filename_details@.1),
                ),
                ..old(state)@
            }),
            res@ == file_path_spec(old(state)@.cache_path, cache_filename_spec(filename_details@.1)),
    {
        let cache_filename = get_filename(
            filename_details.name.as_str(),
            VideoFormat::MP4.to_str(),
        );
        state.add_cache_item(&filename_details.name, &cache_filename);
        get_file_path(state.cache_path.as_str(), cache_filename.as_str())
    }

    /// Where the request for `query_filename` is answered from: an error when
    /// the name does not split, the file to stream when there is one, else the
    /// conversion to run.
    pub fn resolve_stream_source(state: &State, query_filename: &String) -> (res: Result<
        StreamSource,
        String,
    >)
        ensures
            match video_name_parts(query_filename@) {
                None => res matches Err(m) && m@ == parse_error_message(),
                Some(p) => match stream_filename_spec(state@, p.0, p.1) {
                    Some(f) => res matches Ok(StreamSource::Ready(g)) && g@ == f,
                    None => res matches Ok(StreamSource::Convert(d, plan)) && d@ == p
                        && plan_matches(plan, state@, p.0, p.1),
                },
            },
    {
        let filename_details = FilesService::parse_video_name(query_filename)?;
        match StreamService::get_stream_filename(state, &filename_details) {
            Ok(Some(filename)) => Ok(StreamSource::Ready(filename)),
            _ => {
                let plan = StreamService::plan_conversion(state, &filename_details);
                Ok(StreamSource::Convert(filename_details, plan))
            },
        }
    }
}

/// Once a conversion is recorded, the video is streamed from its converted
/// copy: for a format that does not play as it is, the file chosen after
/// recording is the path that recording gave.
pub proof fn lemma_recorded_conversion_is_streamed(state: StateView, ext: Seq<char>, name: Seq<char>)
    requires
        format_of_ext(ext) is None,
    ensures
        stream_filename_spec(
            StateView { cache: state.cache.insert(name, cache_filename_spec(name)), ..state },
            ext,
            name,
        ) == Some(file_path_spec(state.cache_path, cache_filename_spec(name))),
{
}

/// A video whose format plays as it is streams from the videos folder,
/// whatever the cache holds.
pub proof fn lemma_playable_format_is_streamed_directly(state: StateView, ext: Seq<char>, name: Seq<char>)
    requires
        format_of_ext(ext) is Some,
    ensures
        stream_filename_spec(state, ext, name) == Some(file_path_with_ext_spec(state.videos_path, name, ext)),
{
}

} // verus!
