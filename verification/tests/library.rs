use local_video_stream::dtm::chunk_details::ChunkDetails;
use local_video_stream::dtm::file_details::FileDetails;
use local_video_stream::dtm::file_format::VideoFormat;
use local_video_stream::module::sse_callback::progress_message;
use local_video_stream::module::state::{CacheMap, State};
use local_video_stream::service::converter_service::{ConverterService, OutputEvent, ProgressTracker};
use local_video_stream::service::files_service::{FilesService, ListedEntry};
use local_video_stream::service::stream_service::{StreamService, StreamSource, CHUNK_SIZE};
use local_video_stream::text::{decimal_string, parse_u64_digits};
use local_video_stream::utils::{
    get_file_path, get_file_path_with_ext, get_filename, get_ms_from_capture, ms_from_captures,
    read_videos_path,
};

fn state() -> State {
    State {
        videos_path: "/videos".to_string(),
        cache_path: "/cache".to_string(),
        source_path: "/config/path.txt".to_string(),
        cache: CacheMap::new(),
    }
}

fn details(name: &str, ext: &str) -> FileDetails {
    FileDetails { ext: ext.to_string(), name: name.to_string() }
}

fn entry(name: &str, is_dir: Option<bool>) -> ListedEntry {
    ListedEntry { name: name.to_string(), is_dir }
}

fn caps(groups: &[&str]) -> Vec<Option<String>> {
    groups.iter().map(|g| Some(g.to_string())).collect()
}

// ----- paths -----

#[test]
fn file_path_joins_with_slash() {
    assert_eq!(get_file_path("/home/videos", "movie.mp4"), "/home/videos/movie.mp4");
}

#[test]
fn file_path_with_ext_joins_all_parts() {
    assert_eq!(get_file_path_with_ext("/v", "movie", "mkv"), "/v/movie.mkv");
}

#[test]
fn filename_joins_with_dot() {
    assert_eq!(get_filename("movie", "mp4"), "movie.mp4");
}

#[test]
fn filename_in_folder_equals_path_with_ext() {
    let a = get_file_path("/c", &get_filename("clip", "mp4"));
    let b = get_file_path_with_ext("/c", "clip", "mp4");
    assert_eq!(a, b);
}

// ----- formats -----

#[test]
fn mp4_to_str() {
    assert_eq!(VideoFormat::MP4.to_str(), "mp4");
}

#[test]
fn format_from_str_accepts_mp4() {
    assert!(matches!(VideoFormat::from_str("mp4"), Ok(VideoFormat::MP4)));
    let parsed: Result<VideoFormat, _> = "mp4".parse();
    assert!(matches!(parsed, Ok(VideoFormat::MP4)));
}

#[test]
fn format_from_str_rejects_others() {
    assert!(VideoFormat::from_str("MP4").is_err());
    assert!(VideoFormat::from_str("mkv").is_err());
    assert!(VideoFormat::from_str("").is_err());
    let err = VideoFormat::from_str("avi").unwrap_err();
    assert_eq!(err.message(), "Invalid value for enum");
}

#[test]
fn format_roundtrip() {
    let f = VideoFormat::MP4;
    assert!(matches!(VideoFormat::from_str(f.to_str()), Ok(VideoFormat::MP4)));
}

// ----- cache and state -----

#[test]
fn cache_insert_then_get() {
    let mut cache = CacheMap::new();
    assert_eq!(cache.get("a"), None);
    assert_eq!(cache.insert("a".to_string(), "a.mp4".to_string()), None);
    assert_eq!(cache.insert("b".to_string(), "b.mp4".to_string()), None);
    assert_eq!(cache.get("a"), Some("a.mp4".to_string()));
    assert_eq!(cache.insert("a".to_string(), "a2.mp4".to_string()), Some("a.mp4".to_string()));
    assert_eq!(cache.get("a"), Some("a2.mp4".to_string()));
    assert_eq!(cache.get("b"), Some("b.mp4".to_string()));
    assert_eq!(cache.get("c"), None);
}

#[test]
fn state_add_and_read_cache_item() {
    let mut s = state();
    assert_eq!(s.get_cached_filename("film"), None);
    let previous = s.add_cache_item(&"film".to_string(), &"film.mp4".to_string());
    assert_eq!(previous, None);
    assert_eq!(s.get_cached_filename("film"), Some("film.mp4".to_string()));
    let previous = s.add_cache_item(&"film".to_string(), &"other.mp4".to_string());
    assert_eq!(previous, Some("film.mp4".to_string()));
    assert_eq!(s.get_cached_filename("film"), Some("other.mp4".to_string()));
}

#[test]
fn state_update_videos_path() {
    let mut s = state();
    assert_eq!(s.get_videos_path(), "/videos");
    s.update_videos_path("/media".to_string());
    assert_eq!(s.get_videos_path(), "/media");
    assert_eq!(s.cache_path, "/cache");
}

#[test]
fn state_is_current_source() {
    let s = state();
    assert!(s.is_current_source(&"/videos".to_string()));
    assert!(!s.is_current_source(&"/media".to_string()));
}

#[test]
fn parse_video_name_normalises_components() {
    let d = FilesService::parse_video_name(&"a//b/./clip.mkv/".to_string()).unwrap();
    assert_eq!((d.name.as_str(), d.ext.as_str()), ("clip", "mkv"));
    assert!(FilesService::parse_video_name(&"a/b.c/..".to_string()).is_err());
    assert!(FilesService::parse_video_name(&"/".to_string()).is_err());
    let d = FilesService::parse_video_name(&"...".to_string()).unwrap();
    assert_eq!((d.name.as_str(), d.ext.as_str()), ("..", ""));
}

#[test]
fn state_update_cache_replaces_all() {
    let mut s = state();
    s.add_cache_item(&"old".to_string(), &"old.mp4".to_string());
    let mut fresh = CacheMap::new();
    fresh.insert("new".to_string(), "new.mp4".to_string());
    s.update_cache(fresh);
    assert_eq!(s.get_cached_filename("old"), None);
    assert_eq!(s.get_cached_filename("new"), Some("new.mp4".to_string()));
}

// ----- file names -----

#[test]
fn parse_video_name_splits_stem_and_extension() {
    let d = FilesService::parse_video_name(&"movie.mkv".to_string()).unwrap();
    assert_eq!(d.name, "movie");
    assert_eq!(d.ext, "mkv");
}

#[test]
fn parse_video_name_uses_last_dot() {
    let d = FilesService::parse_video_name(&"archive.tar.gz".to_string()).unwrap();
    assert_eq!(d.name, "archive.tar");
    assert_eq!(d.ext, "gz");
}

#[test]
fn parse_video_name_takes_final_component() {
    let d = FilesService::parse_video_name(&"dir/clip.avi".to_string()).unwrap();
    assert_eq!(d.name, "clip");
    assert_eq!(d.ext, "avi");
}

#[test]
fn parse_video_name_rejects_missing_extension() {
    let e = FilesService::parse_video_name(&"noext".to_string()).err().unwrap();
    assert_eq!(e, "cannot parse filename");
    assert!(FilesService::parse_video_name(&".hidden".to_string()).is_err());
    assert!(FilesService::parse_video_name(&"".to_string()).is_err());
    assert!(FilesService::parse_video_name(&"..".to_string()).is_err());
}

#[test]
fn parse_video_name_empty_extension() {
    let d = FilesService::parse_video_name(&"trailing.".to_string()).unwrap();
    assert_eq!(d.name, "trailing");
    assert_eq!(d.ext, "");
}

#[test]
fn parse_video_name_of_built_filename() {
    let d = FilesService::parse_video_name(&get_filename("episode", "webm")).unwrap();
    assert_eq!(d.name, "episode");
    assert_eq!(d.ext, "webm");
}

#[test]
fn file_details_from_parts_needs_both() {
    let ok = FilesService::file_details_from_parts(Some("mp4".to_string()), Some("x".to_string()));
    let d = ok.unwrap();
    assert_eq!((d.ext.as_str(), d.name.as_str()), ("mp4", "x"));
    assert_eq!(
        FilesService::file_details_from_parts(None, Some("x".to_string())).err().unwrap(),
        "cannot parse filename"
    );
    assert!(FilesService::file_details_from_parts(Some("mp4".to_string()), None).is_err());
}

#[test]
fn generate_cache_maps_stems_to_files() {
    let files = vec![
        "a.mp4".to_string(),
        "noext".to_string(),
        "b.mp4".to_string(),
        "a.webm".to_string(),
    ];
    let cache = FilesService::generate_cache(&files);
    assert_eq!(cache.get("a"), Some("a.webm".to_string()));
    assert_eq!(cache.get("b"), Some("b.mp4".to_string()));
    assert_eq!(cache.get("noext"), None);
}

#[test]
fn generate_cache_of_nothing_is_empty() {
    let cache = FilesService::generate_cache(&Vec::new());
    assert_eq!(cache.get("a"), None);
}

// ----- listings -----

#[test]
fn video_files_are_files_sorted_without_case() {
    let entries = vec![
        entry("b.mp4", Some(false)),
        entry("Subfolder", Some(true)),
        entry("A.mp4", Some(false)),
        entry("c.mkv", Some(false)),
        entry("unknown.mp4", None),
        entry("a.mp4", Some(false)),
    ];
    let files = FilesService::get_video_files(&entries);
    assert_eq!(files, vec!["A.mp4", "a.mp4", "b.mp4", "c.mkv"]);
}

#[test]
fn sort_is_stable_for_equal_lowercase() {
    let files = vec!["x.MP4".to_string(), "X.mp4".to_string(), "x.mp4".to_string()];
    let sorted = FilesService::sort_by_lowercase(files);
    assert_eq!(sorted, vec!["x.MP4", "X.mp4", "x.mp4"]);
}

#[test]
fn sort_uses_lowercase_forms() {
    let files = vec!["Zeta".to_string(), "alpha".to_string(), "Beta".to_string(), "_x".to_string()];
    let sorted = FilesService::sort_by_lowercase(files);
    assert_eq!(sorted, vec!["_x", "alpha", "Beta", "Zeta"]);
}

#[test]
fn sort_puts_prefix_first() {
    let files = vec!["ab".to_string(), "a".to_string(), "".to_string()];
    let sorted = FilesService::sort_by_lowercase(files);
    assert_eq!(sorted, vec!["", "a", "ab"]);
}

#[test]
fn files_list_of_empty_listing() {
    assert!(FilesService::get_files_list(&Vec::new()).is_empty());
}

// ----- numbers -----

#[test]
fn decimal_strings() {
    assert_eq!(decimal_string(0), "0");
    assert_eq!(decimal_string(7), "7");
    assert_eq!(decimal_string(1048576), "1048576");
    assert_eq!(decimal_string(u64::MAX), u64::MAX.to_string());
}

#[test]
fn parse_digits_values() {
    let chars = |s: &str| s.chars().collect::<Vec<char>>();
    assert_eq!(parse_u64_digits(&chars("0042")), Some(42));
    assert_eq!(parse_u64_digits(&chars("")), None);
    assert_eq!(parse_u64_digits(&chars("12a")), None);
    assert_eq!(parse_u64_digits(&chars("18446744073709551615")), Some(u64::MAX));
    assert_eq!(parse_u64_digits(&chars("18446744073709551616")), None);
}

#[test]
fn ms_from_captures_reads_timestamp() {
    let c = caps(&["Duration: 01:02:03.04", "01", "02", "03", "04"]);
    assert_eq!(ms_from_captures(&c), Some(3723004));
    assert_eq!(get_ms_from_capture(&c), 3723004);
}

#[test]
fn ms_from_captures_rejects_bad_groups() {
    assert_eq!(ms_from_captures(&caps(&["x", "1", "2", "3"])), None);
    let mut c = caps(&["x", "1", "2", "3", "4"]);
    c[2] = None;
    assert_eq!(ms_from_captures(&c), None);
    assert_eq!(ms_from_captures(&caps(&["x", "1", "٢", "3", "4"])), None);
    assert_eq!(ms_from_captures(&caps(&["x", "18446744073709551615", "0", "0", "0"])), None);
}

#[test]
fn read_videos_path_takes_last_line() {
    assert_eq!(read_videos_path(&vec![]), None);
    assert_eq!(
        read_videos_path(&vec!["/first".to_string(), "/second".to_string()]),
        Some("/second".to_string())
    );
}

// ----- chunks and headers -----

#[test]
fn chunk_from_range_header() {
    let c = StreamService::get_chunk_details("bytes=100-", 5_000_000);
    assert_eq!((c.start, c.end, c.size), (100, 100 + CHUNK_SIZE, CHUNK_SIZE + 1));
}

#[test]
fn chunk_stops_at_end_of_file() {
    let c = StreamService::get_chunk_details("bytes=0-", 10);
    assert_eq!((c.start, c.end, c.size), (0, 9, 10));
    let c = StreamService::get_chunk_details("bytes=9-", 10);
    assert_eq!((c.start, c.end, c.size), (9, 9, 1));
}

#[test]
fn chunk_reads_all_digits_of_header() {
    let c = StreamService::get_chunk_details("bytes=1-2", 1000);
    assert_eq!((c.start, c.end, c.size), (12, 999, 988));
}

#[test]
fn checked_chunk_rejects_undefined() {
    assert!(StreamService::checked_chunk_details("bytes=-", 10).is_none());
    assert!(StreamService::checked_chunk_details("bytes=10-", 10).is_none());
    assert!(StreamService::checked_chunk_details("bytes=0-", 0).is_none());
    assert!(StreamService::checked_chunk_details("bytes=99999999999999999999-", 10).is_none());
    assert!(StreamService::checked_chunk_details("bytes=18446744073709551615-", u64::MAX).is_none());
    let c = StreamService::checked_chunk_details("bytes=5-", 10).unwrap();
    assert_eq!((c.start, c.end, c.size), (5, 9, 5));
}

#[test]
fn pipe_headers_describe_chunk() {
    let chunk = ChunkDetails { size: 10, start: 0, end: 9 };
    let headers = StreamService::get_pipe_headers(&chunk, 1234);
    let expected: Vec<(String, String)> = vec![
        ("Content-Range".to_string(), "bytes 0-9/1234".to_string()),
        ("Content-Length".to_string(), "10".to_string()),
        ("Content-Type".to_string(), "video/mp4".to_string()),
        ("Accept-Ranges".to_string(), "bytes".to_string()),
    ];
    assert_eq!(headers, expected);
}

// ----- choosing the file -----

#[test]
fn mp4_streams_from_videos_folder() {
    let s = state();
    let r = StreamService::get_stream_filename(&s, &details("film", "mp4")).unwrap();
    assert_eq!(r, Some("/videos/film.mp4".to_string()));
}

#[test]
fn other_format_streams_from_cache_or_nothing() {
    let mut s = state();
    let r = StreamService::get_stream_filename(&s, &details("film", "mkv")).unwrap();
    assert_eq!(r, None);
    s.add_cache_item(&"film".to_string(), &"film.mp4".to_string());
    let r = StreamService::get_stream_filename(&s, &details("film", "mkv")).unwrap();
    assert_eq!(r, Some("/cache/film.mp4".to_string()));
}

#[test]
fn plan_conversion_names_files() {
    let s = state();
    let plan = StreamService::plan_conversion(&s, &details("film", "mkv"));
    assert_eq!(plan.cache_filename, "film.mp4");
    assert_eq!(plan.cache_file, "/cache/film.mp4");
    assert_eq!(plan.source_file, "/videos/film.mkv");
}

#[test]
fn recorded_conversion_is_streamed() {
    let mut s = state();
    let d = details("film", "avi");
    let path = StreamService::record_conversion(&mut s, &d);
    assert_eq!(path, "/cache/film.mp4");
    assert_eq!(s.get_cached_filename("film"), Some("film.mp4".to_string()));
    let r = StreamService::get_stream_filename(&s, &d).unwrap();
    assert_eq!(r, Some(path));
}

#[test]
fn resolve_stream_source_cases() {
    let mut s = state();
    match StreamService::resolve_stream_source(&s, &"a.mp4".to_string()) {
        Ok(StreamSource::Ready(p)) => assert_eq!(p, "/videos/a.mp4"),
        _ => panic!("expected a ready file"),
    }
    match StreamService::resolve_stream_source(&s, &"b.mkv".to_string()) {
        Ok(StreamSource::Convert(d, plan)) => {
            assert_eq!(d.name, "b");
            assert_eq!(plan.cache_file, "/cache/b.mp4");
            StreamService::record_conversion(&mut s, &d);
        }
        _ => panic!("expected a conversion"),
    }
    match StreamService::resolve_stream_source(&s, &"b.mkv".to_string()) {
        Ok(StreamSource::Ready(p)) => assert_eq!(p, "/cache/b.mp4"),
        _ => panic!("expected a ready file"),
    }
    match StreamService::resolve_stream_source(&s, &"nothing".to_string()) {
        Err(e) => assert_eq!(e, "cannot parse filename"),
        _ => panic!("expected an error"),
    }
}

// ----- progress -----

#[test]
fn progress_messages() {
    assert_eq!(progress_message(0), None);
    assert_eq!(progress_message(42), Some("data: progress_42\n\n".to_string()));
    assert_eq!(progress_message(100), Some("data: progress_100\n\n".to_string()));
}

#[test]
fn tracker_learns_duration_then_progress() {
    let mut t = ProgressTracker::new();
    let e = t.observe_output(b"Input #0\n  Duration: 00:01:00.00, start: 0.000000\n");
    assert!(matches!(e, OutputEvent::Silent));
    assert_eq!(t.duration, 60000);
    let e = t.observe_output(b"frame=  10 fps=0.0 q=-1.0 size=  256kB time=00:00:30.50 bitrate=");
    match e {
        OutputEvent::Progress { duration, converted_ms } => {
            assert_eq!(duration, 60000);
            assert_eq!(converted_ms, 30050);
        }
        _ => panic!("expected progress"),
    }
}

#[test]
fn tracker_keeps_first_duration() {
    let mut t = ProgressTracker::new();
    t.observe_output(b"Duration: 00:00:10.00");
    t.observe_output(b"Duration: 00:00:20.00");
    assert_eq!(t.duration, 10000);
}

#[test]
fn tracker_reports_unreadable_numbers() {
    let mut t = ProgressTracker::new();
    let e = t.observe_output("time=٠٠:00:01.00".as_bytes());
    assert!(matches!(e, OutputEvent::Unreadable));
}

#[test]
fn tracker_decodes_invalid_utf8_lossily() {
    let mut t = ProgressTracker::new();
    let mut bytes = b"\xff\xfe time=00:00:02.00".to_vec();
    bytes.push(0xff);
    let e = t.observe_output(&bytes);
    match e {
        OutputEvent::Progress { duration, converted_ms } => {
            assert_eq!(duration, 0);
            assert_eq!(converted_ms, 2000);
        }
        _ => panic!("expected progress"),
    }
}

#[test]
fn apply_captures_without_matches_is_silent() {
    let mut t = ProgressTracker::new();
    assert!(matches!(t.apply_captures(None, None), OutputEvent::Silent));
    let e = t.apply_captures(Some(caps(&["d", "0", "0", "1", "0"])), None);
    assert!(matches!(e, OutputEvent::Silent));
    assert_eq!(t.duration, 1000);
    let e = t.apply_captures(Some(caps(&["d", "x", "0", "1", "0"])), None);
    assert!(matches!(e, OutputEvent::Silent));
    assert_eq!(t.duration, 1000);
}

#[test]
fn ffmpeg_args_convert_to_mp4() {
    let args = ConverterService::ffmpeg_args("/v/a.mkv", "/c/a.mp4");
    assert_eq!(
        args,
        vec!["-i", "/v/a.mkv", "-movflags", "+faststart", "-c:v", "copy", "-c:a", "aac", "-f", "mp4", "/c/a.mp4"]
    );
}

#[test]
fn parse_video_name_stem_never_empty() {
    let d = FilesService::parse_video_name(&"..mkv".to_string()).unwrap();
    assert_eq!((d.name.as_str(), d.ext.as_str()), (".", "mkv"));
    assert!(FilesService::parse_video_name(&"dir/.hidden".to_string()).is_err());
}
