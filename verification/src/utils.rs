//! Path building and the reading of `hh:mm:ss.ms` timestamps.

use vstd::prelude::*;
use vstd::string::*;
use crate::text::{chars_of, decimal, lemma_decimal_reads_back, parse_digits, parse_u64_digits};

verus! {

/// `folder/filename`.
pub open spec fn file_path_spec(folder: Seq<char>, filename: Seq<char>) -> Seq<char> {
    folder + seq!['/'] + filename
}

/// `filename.ext`.
pub open spec fn filename_spec(filename: Seq<char>, ext: Seq<char>) -> Seq<char> {
    filename + seq!['.'] + ext
}

/// `folder/filename.ext`.
pub open spec fn file_path_with_ext_spec(folder: Seq<char>, filename: Seq<char>, ext: Seq<char>) -> Seq<char> {
    folder + seq!['/'] + filename + seq!['.'] + ext
}

/// The path `folder/filename.ext`.
pub fn get_file_path_with_ext(folder: &str, filename: &str, ext: &str) -> (res: String)
    ensures
        res@ == file_path_with_ext_spec(folder@, filename@, ext@),
{
    proof {
        reveal_strlit("/");
        reveal_strlit(".");
    }
    let res = String::from_str(folder).concat("/").concat(filename).concat(".").concat(ext);
    assert(res@ =~= file_path_with_ext_spec(folder@, filename@, ext@));
    res
}

/// The path `folder/filename`.
pub fn get_file_path(folder: &str, filename: &str) -> (res: String)
    ensures
        res@ == file_path_spec(folder@, filename@),
{
    proof {
        reveal_strlit("/");
    }
    let res = String::from_str(folder).concat("/").concat(filename);
    assert(res@ =~= file_path_spec(folder@, filename@));
    res
}

/// The file name `filename.ext`.
pub fn get_filename(filename: &str, ext: &str) -> (res: String)
    ensures
        res@ == filename_spec(filename@, ext@),
{
    proof {
        reveal_strlit(".");
    }
    let res = String::from_str(filename).concat(".").concat(ext);
    assert(res@ =~= filename_spec(filename@, ext@));
    res
}

/// Placing `filename.ext` in `folder` gives the path `folder/filename.ext`.
pub proof fn lemma_file_path_of_filename(folder: Seq<char>, filename: Seq<char>, ext: Seq<char>)
    ensures
        file_path_spec(folder, filename_spec(filename, ext)) == file_path_with_ext_spec(
            folder,
            filename,
            ext,
        ),
{
    assert(file_path_spec(folder, filename_spec(filename, ext)) =~= file_path_with_ext_spec(
        folder,
        filename,
        ext,
    ));
}

/// A timestamp of no hours, minutes or seconds is its milliseconds, and each
/// hour, minute and second adds 3600000, 60000 and 1000 milliseconds.
pub proof fn lemma_total_ms_units(hours: nat, minutes: nat, seconds: nat, millis: nat)
    ensures
        total_ms(0, 0, 0, millis) == millis,
        total_ms(hours + 1, minutes, seconds, millis) == total_ms(hours, minutes, seconds, millis)
            + 3600000,
        total_ms(hours, minutes + 1, seconds, millis) == total_ms(hours, minutes, seconds, millis)
            + 60000,
        total_ms(hours, minutes, seconds + 1, millis) == total_ms(hours, minutes, seconds, millis)
            + 1000,
{
    assert((hours + 1) * 3600000 == hours * 3600000 + 3600000) by (nonlinear_arith);
    assert((minutes + 1) * 60000 == minutes * 60000 + 60000) by (nonlinear_arith);
    assert((seconds + 1) * 1000 == seconds * 1000 + 1000) by (nonlinear_arith);
}

/// The view of a list of optional capture groups.
pub open spec fn captures_view(caps: Seq<Option<String>>) -> Seq<Option<Seq<char>>> {
    caps.map_values(|o: Option<String>|
        match o {
            Some(s) => Some(s@),
            None => None,
        }
    )
}

/// The number in capture group `i`, when the group took part in the match and
/// holds a decimal number that fits in a `u64`.
pub open spec fn capture_number(caps: Seq<Option<Seq<char>>>, i: int) -> Option<u64> {
    match caps[i] {
        Some(s) => parse_digits(s),
        None => None,
    }
}

/// Milliseconds in `hours:minutes:seconds.millis`.
pub open spec fn total_ms(hours: nat, minutes: nat, seconds: nat, millis: nat) -> nat {
    hours * 3600000 + minutes * 60000 + seconds * 1000 + millis
}

/// The milliseconds that capture groups 1 to 4 (hours, minutes, seconds,
/// milliseconds) denote: `None` when a group is missing, is not a number that
/// fits in a `u64`, or when the total does not fit in a `u64`.
pub open spec fn captures_ms(caps: Seq<Option<Seq<char>>>) -> Option<u64> {
    if caps.len() >= 5 && capture_number(caps, 1) is Some && capture_number(caps, 2) is Some
        && capture_number(caps, 3) is Some && capture_number(caps, 4) is Some && total_ms(
        capture_number(caps, 1)->0 as nat,
        capture_number(caps, 2)->0 as nat,
        capture_number(caps, 3)->0 as nat,
        capture_number(caps, 4)->0 as nat,
    ) <= u64::MAX {
        Some(
            total_ms(
                capture_number(caps, 1)->0 as nat,
                capture_number(caps, 2)->0 as nat,
                capture_number(caps, 3)->0 as nat,
                capture_number(caps, 4)->0 as nat,
            ) as u64,
        )
    } else {
        None
    }
}

/// The number in capture group `i`, as `captures[i].parse::<u64>()` reads it.
fn capture_value(caps: &Vec<Option<String>>, i: usize) -> (res: Option<u64>)
    requires
        i < caps@.len(),
    ensures
        res == capture_number(captures_view(caps@), i as int),
{
    match &caps[i] {
        Some(s) => {
            let chars = chars_of(s.as_str());
            parse_u64_digits(&chars)
        },
        None => None,
    }
}

/// The milliseconds that the capture groups of an `hh:mm:ss.ms` match denote,
/// or `None` where reading them as numbers would fail or overflow.
pub fn ms_from_captures(caps: &Vec<Option<String>>) -> (res: Option<u64>)
    ensures
        res == captures_ms(captures_view(caps@)),
{
    if caps.len() < 5 {
        return None;
    }
    let h = capture_value(caps, 1);
    let m = capture_value(caps, 2);
    let s = capture_value(caps, 3);
    let ms = capture_value(caps, 4);
    match (h, m, s, ms) {
        (Some(h), Some(m), Some(s), Some(ms)) => {
            let a = h.checked_mul(3600000);
            let b = m.checked_mul(60000);
            let c = s.checked_mul(1000);
            match (a, b, c) {
                (Some(a), Some(b), Some(c)) => {
                    match a.checked_add(b) {
                        Some(ab) => match ab.checked_add(c) {
                            Some(abc) => abc.checked_add(ms),
                            None => None,
                        },
                        None => None,
                    }
                },
                _ => None,
            }
        },
        _ => None,
    }
}

/// The milliseconds of an `hh:mm:ss.ms` match whose capture groups 1 to 4 hold
/// hours, minutes, seconds and milliseconds.
pub fn get_ms_from_capture(captures: &Vec<Option<String>>) -> (res: u64)
    requires
        captures_ms(captures_view(captures@)) is Some,
    ensures
        res == captures_ms(captures_view(captures@))->0,
{
    match ms_from_captures(captures) {
        Some(v) => v,
        None => 0,
    }
}

/// Capture groups that hold the decimal numbers `h`, `m`, `s` and `f` read as
/// `h` hours, `m` minutes, `s` seconds and `f` milliseconds.
pub proof fn lemma_captures_ms_of_numbers(whole: Seq<char>, h: u64, m: u64, s: u64, f: u64)
    requires
        h * 3600000 + m * 60000 + s * 1000 + f <= u64::MAX,
    ensures
        captures_ms(
            seq![
                Some(whole),
                Some(decimal(h as nat)),
                Some(decimal(m as nat)),
                Some(decimal(s as nat)),
                Some(decimal(f as nat)),
            ],
        ) == Some((h * 3600000 + m * 60000 + s * 1000 + f) as u64),
{
    lemma_decimal_reads_back(h);
    lemma_decimal_reads_back(m);
    lemma_decimal_reads_back(s);
    lemma_decimal_reads_back(f);
    let caps = seq![
        Some(whole),
        Some(decimal(h as nat)),
        Some(decimal(m as nat)),
        Some(decimal(s as nat)),
        Some(decimal(f as nat)),
    ];
    assert(capture_number(caps, 1) == Some(h));
    assert(capture_number(caps, 2) == Some(m));
    assert(capture_number(caps, 3) == Some(s));
    assert(capture_number(caps, 4) == Some(f));
}

/// The last line read from the file that names the videos folder, if any.
pub fn read_videos_path(lines: &Vec<String>) -> (res: Option<String>)
    ensures
        lines@.len() == 0 ==> res is None,
        lines@.len() > 0 ==> (res matches Some(s) && s@ == lines@.last()@),
{
    if lines.len() == 0 {
        None
    } else {
        Some(lines[lines.len() - 1].clone())
    }
}

} // verus!
