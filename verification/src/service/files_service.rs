//! Listing video files, splitting file names, and rebuilding the cache of
//! converted files from the names found in the cache folder.

use vstd::prelude::*;
use vstd::string::*;
use crate::dtm::file_details::FileDetails;
use crate::module::state::{opt_string_view, CacheMap};
use crate::text::{chars_of, chars_lt, lemma_lex_le_transitive, lemma_lex_trichotomy, lex_le, lex_lt};

verus! {

/// Reading folder listings and file names.
pub struct FilesService {}

// ---------------------------------------------------------------------------
// File names
// ---------------------------------------------------------------------------

/// What `Path::extension` gives for the path `path`, as text.
pub uninterp spec fn path_extension(path: Seq<char>) -> Option<Seq<char>>;

/// What `Path::file_stem` gives for the path `path`, as text.
pub uninterp spec fn path_file_stem(path: Seq<char>) -> Option<Seq<char>>;

/// A path made of one normal component: not empty, without `/`, and neither
/// `.` nor `..`. Its file name is the whole path.
pub open spec fn plain_file_name(s: Seq<char>) -> bool {
    &&& s.len() > 0
    &&& !s.contains('/')
    &&& s != seq!['.']
    &&& s != seq!['.', '.']
}

/// A path that Unix and Windows split into the same components, at `/`: it
/// holds no `\` and no `:` (which Windows reads in prefixes and as a
/// separator) and does not begin with `//` (which Windows reads as the prefix
/// of a network share).
pub open spec fn portable_path(s: Seq<char>) -> bool {
    &&& !s.contains('\\')
    &&& !s.contains(':')
    &&& !(s.len() >= 2 && s[0] == '/' && s[1] == '/')
}

/// The index of the last `c` in `s`, or -1 when there is none.
pub open spec fn last_index_of(s: Seq<char>, c: char) -> int
    decreases s.len(),
{
    if s.len() == 0 {
        -1
    } else if s.last() == c {
        s.len() - 1
    } else {
        last_index_of(s.drop_last(), c)
    }
}

/// The index of the last `.` in `s`, or -1 when there is none.
pub open spec fn last_dot(s: Seq<char>) -> int {
    last_index_of(s, '.')
}

/// `last_index_of` is -1 or an index of `s` that holds `c`, and no later
/// index holds `c`.
pub proof fn lemma_last_index_of(s: Seq<char>, c: char)
    ensures
        -1 <= last_index_of(s, c) < s.len(),
        last_index_of(s, c) >= 0 ==> s[last_index_of(s, c)] == c,
        forall|i: int| last_index_of(s, c) < i < s.len() ==> s[i] != c,
    decreases s.len(),
{
    if s.len() > 0 && s.last() != c {
        lemma_last_index_of(s.drop_last(), c);
        assert forall|i: int| last_index_of(s, c) < i < s.len() implies s[i] != c by {
            if i < s.len() - 1 {
                assert(s[i] == s.drop_last()[i]);
            }
        }
    }
}

/// The file name of a path, as `Path::file_name` reads it with `/` as the
/// only separator: the last component once empty components and `.` are left
/// out; none when there is no component left or the last one is `..`.
pub open spec fn path_file_name(s: Seq<char>) -> Option<Seq<char>>
    decreases s.len(),
{
    if s.len() == 0 {
        None
    } else {
        let cut = last_index_of(s, '/');
        proof {
            lemma_last_index_of(s, '/');
        }
        let last = s.subrange(cut + 1, s.len() as int);
        if last.len() == 0 || last == seq!['.'] {
            if cut < 0 {
                None
            } else {
                path_file_name(s.subrange(0, cut))
            }
        } else if last == seq!['.', '.'] {
            None
        } else {
            Some(last)
        }
    }
}

/// The extension of a path: that of its file name.
pub open spec fn path_extension_rule(s: Seq<char>) -> Option<Seq<char>> {
    match path_file_name(s) {
        Some(n) => name_extension(n),
        None => None,
    }
}

/// The stem of a path: that of its file name.
pub open spec fn path_stem_rule(s: Seq<char>) -> Option<Seq<char>> {
    match path_file_name(s) {
        Some(n) => Some(name_stem(n)),
        None => None,
    }
}

/// The extension of a file name: the text after its last `.`, unless it has
/// no `.` or its only `.` is its first character.
pub open spec fn name_extension(name: Seq<char>) -> Option<Seq<char>> {
    if last_dot(name) <= 0 {
        None
    } else {
        Some(name.subrange(last_dot(name) + 1, name.len() as int))
    }
}

/// The stem of a file name: the text before its last `.`, or the whole name
/// when it has no `.` or its only `.` is its first character.
pub open spec fn name_stem(name: Seq<char>) -> Seq<char> {
    if last_dot(name) <= 0 {
        name
    } else {
        name.subrange(0, last_dot(name))
    }
}

/// `Path::new(path).extension()`, as an owned string.
///
/// The result is named by `path_extension`. On every platform it holds no `/`
/// (a separator) and no `.` (the file name is split at its last `.`), and when
/// there is an extension there is a stem too. For a path that Unix and Windows
/// split alike (`portable_path`) it is the extension of the file name as the
/// documentation of `Path::components`, `Path::file_name` and
/// `Path::extension` describes them. Other paths are left to the name.
#[verifier::external_body]
fn extension_of(path: &str) -> (res: Option<String>)
    ensures
        opt_string_view(res) == path_extension(path@),
        portable_path(path@) ==> opt_string_view(res) == path_extension_rule(path@),
        res matches Some(e) ==> !e@.contains('/') && !e@.contains('.'),
        res is Some ==> path_file_stem(path@) is Some,
{
    match std::path::Path::new(path).extension() {
        Some(e) => Some(e.to_string_lossy().into_owned()),
        None => None,
    }
}

/// `Path::new(path).file_stem()`, as an owned string.
///
/// The result is named by `path_file_stem`. On every platform it holds no
/// `/` (a separator) and is not empty (a file name is not empty, and the stem
/// is the part before its last `.` only when that part is not empty). For a
/// path that Unix and Windows split alike (`portable_path`) it is the stem of
/// the file name as the documentation of `Path::components`, `Path::file_name`
/// and `Path::file_stem` describes them. Other paths are left to the name.
#[verifier::external_body]
fn file_stem_of(path: &str) -> (res: Option<String>)
    ensures
        opt_string_view(res) == path_file_stem(path@),
        portable_path(path@) ==> opt_string_view(res) == path_stem_rule(path@),
        res matches Some(e) ==> !e@.contains('/') && e@.len() > 0,
{
    match std::path::Path::new(path).file_stem() {
        Some(s) => Some(s.to_string_lossy().into_owned()),
        None => None,
    }
}

/// A file name without `/`, other than `.` and `..`, is the file name of the
/// path it makes up.
pub proof fn lemma_plain_file_name(s: Seq<char>)
    requires
        plain_file_name(s),
    ensures
        path_file_name(s) == Some(s),
{
    lemma_last_index_of(s, '/');
    if last_index_of(s, '/') >= 0 {
        assert(s.contains('/'));
    }
    assert(s.subrange(0, s.len() as int) =~= s);
}

/// The message of a file name that cannot be split.
pub open spec fn parse_error_message() -> Seq<char> {
    "cannot parse filename"@
}

/// The extension and the stem that `parse_video_name` finds in `filename`.
pub open spec fn video_name_parts(filename: Seq<char>) -> Option<(Seq<char>, Seq<char>)> {
    match (path_extension(filename), path_file_stem(filename)) {
        (Some(e), Some(s)) => Some((e, s)),
        _ => None,
    }
}

impl FilesService {
    /// The details of a file name from its extension and its stem: an error when
    /// either is missing.
    pub fn file_details_from_parts(extension: Option<String>, stem: Option<String>) -> (res: Result<
        FileDetails,
        String,
    >)
        ensures
            match (opt_string_view(extension), opt_string_view(stem)) {
                (Some(e), Some(s)) => res matches Ok(d) && d@ == (e, s),
                _ => res matches Err(m) && m@ == parse_error_message(),
            },
    {
        let ext = match extension {
            Some(e) => e,
            None => return Err(String::from_str("cannot parse filename")),
        };
        let name = match stem {
            Some(s) => s,
            None => return Err(String::from_str("cannot parse filename")),
        };
        Ok(FileDetails { ext, name })
    }

    /// Splits a file name into its stem and its extension, as `Path::file_stem`
    /// and `Path::extension` see them.
    pub fn parse_video_name(filename: &String) -> (res: Result<FileDetails, String>)
        ensures
            match video_name_parts(filename@) {
                Some(p) => res matches Ok(d) && d@ == p,
                None => res matches Err(m) && m@ == parse_error_message(),
            },
            portable_path(filename@) ==> match path_file_name(filename@) {
                Some(n) => match name_extension(n) {
                    Some(e) => res matches Ok(d) && d@ == (e, name_stem(n)),
                    None => res is Err,
                },
                None => res is Err,
            },
            portable_path(filename@) ==> (res matches Ok(d) ==> path_file_name(filename@) == Some(
                d.name@ + seq!['.'] + d.ext@,
            )),
            res matches Ok(d) ==> !d.ext@.contains('/') && !d.ext@.contains('.') && !d.name@.contains(
                '/',
            ) && d.name@.len() > 0,
    {
        let extension = extension_of(filename.as_str());
        let stem = file_stem_of(filename.as_str());
        proof {
            if portable_path(filename@) {
                if let Some(n) = path_file_name(filename@) {
                    lemma_name_rejoins(n);
                }
            }
        }
        FilesService::file_details_from_parts(extension, stem)
    }
}

/// A file name with an extension is its stem, a `.`, and its extension.
pub proof fn lemma_name_rejoins(n: Seq<char>)
    ensures
        name_extension(n) matches Some(e) ==> name_stem(n) + seq!['.'] + e == n,
{
    lemma_last_index_of(n, '.');
    if let Some(e) = name_extension(n) {
        let d = last_dot(n);
        assert(name_stem(n) + seq!['.'] + e =~= n);
    }
}

/// The last `.` of `name + "." + ext` is the one between them when `ext` has none.
proof fn lemma_last_dot_of_join(name: Seq<char>, ext: Seq<char>)
    requires
        !ext.contains('.'),
    ensures
        last_dot(name + seq!['.'] + ext) == name.len(),
    decreases ext.len(),
{
    let s = name + seq!['.'] + ext;
    if ext.len() == 0 {
        assert(s.last() == '.');
    } else {
        assert(s.last() == ext.last());
        assert(!ext.drop_last().contains('.')) by {
            if ext.drop_last().contains('.') {
                let i = choose|i: int| 0 <= i < ext.drop_last().len() && ext.drop_last()[i] == '.';
                assert(ext[i] == '.');
            }
        }
        lemma_last_dot_of_join(name, ext.drop_last());
        assert(s.drop_last() =~= name + seq!['.'] + ext.drop_last());
    }
}

/// A file name built as `name.ext`, where `name` is not empty and neither part
/// holds a `/`, `ext` holds no `.`, and the whole is not `..`, is the file name
/// of that path and splits back into `name` and `ext`.
pub proof fn lemma_filename_split_roundtrip(name: Seq<char>, ext: Seq<char>)
    requires
        name.len() > 0,
        !name.contains('/'),
        !ext.contains('.'),
        !ext.contains('/'),
        !(name == seq!['.'] && ext.len() == 0),
    ensures
        plain_file_name(name + seq!['.'] + ext),
        path_file_name(name + seq!['.'] + ext) == Some(name + seq!['.'] + ext),
        name_extension(name + seq!['.'] + ext) == Some(ext),
        name_stem(name + seq!['.'] + ext) == name,
        portable_path(name) && portable_path(ext) ==> portable_path(name + seq!['.'] + ext),
{
    let s = name + seq!['.'] + ext;
    lemma_last_dot_of_join(name, ext);
    assert(!s.contains('/')) by {
        if s.contains('/') {
            let i = choose|i: int| 0 <= i < s.len() && s[i] == '/';
            if i < name.len() {
                assert(name[i] == '/');
            } else if i > name.len() {
                assert(ext[i - name.len() - 1] == '/');
            }
        }
    }
    assert(s != seq!['.', '.']) by {
        if s == seq!['.', '.'] {
            assert(s.len() == 2);
            assert(name.len() == 1);
            assert(name[0] == s[0]);
            assert(name =~= seq!['.']);
        }
    }
    lemma_plain_file_name(s);
    if portable_path(name) && portable_path(ext) {
        assert forall|c: char| c == '\\' || c == ':' implies !s.contains(c) by {
            if s.contains(c) {
                let i = choose|i: int| 0 <= i < s.len() && s[i] == c;
                if i < name.len() {
                    assert(name[i] == c);
                    assert(name.contains(c));
                } else if i > name.len() {
                    assert(ext[i - name.len() - 1] == c);
                    assert(ext.contains(c));
                }
            }
        }
    }
    assert(s.subrange(name.len() as int + 1, s.len() as int) =~= ext);
    assert(s.subrange(0, name.len() as int) =~= name);
}

// ---------------------------------------------------------------------------
// The cache of converted files
// ---------------------------------------------------------------------------

/// The views of a list of strings.
pub open spec fn strings_view(v: Seq<String>) -> Seq<Seq<char>> {
    v.map_values(|s: String| s@)
}

/// The cache built from the files of the cache folder, in order: each file
/// whose name splits is recorded under its stem, a later file replacing an
/// earlier one with the same stem.
pub open spec fn cache_of_files(files: Seq<Seq<char>>) -> Map<Seq<char>, Seq<char>>
    decreases files.len(),
{
    if files.len() == 0 {
        Map::empty()
    } else {
        let previous = cache_of_files(files.drop_last());
        match video_name_parts(files.last()) {
            Some(p) => previous.insert(p.1, files.last()),
            None => previous,
        }
    }
}

impl FilesService {
    /// Builds the cache from the names of the files in the cache folder.
    pub fn generate_cache(cache_files: &Vec<String>) -> (res: CacheMap)
        ensures
            res@ == cache_of_files(strings_view(cache_files@)),
    {
        let mut cache = CacheMap::new();
        let n = cache_files.len();
        let mut i: usize = 0;
        while i < n
            invariant
                n == cache_files@.len(),
                i <= n,
                cache@ == cache_of_files(strings_view(cache_files@).take(i as int)),
            decreases n - i,
        {
            let file = &cache_files[i];
            proof {
                let t = strings_view(cache_files@).take(i + 1);
                assert(t.drop_last() =~= strings_view(cache_files@).take(i as int));
                assert(t.last() == file@);
            }
            match FilesService::parse_video_name(file) {
                Ok(details) => {
                    cache.insert(details.name, file.clone());
                },
                Err(_) => {},
            }
            i = i + 1;
        }
        assert(strings_view(cache_files@).take(n as int) =~= strings_view(cache_files@));
        cache
    }
}

/// Whether the name of `file` splits with the stem `stem`.
pub open spec fn has_stem(file: Seq<char>, stem: Seq<char>) -> bool {
    match video_name_parts(file) {
        Some(p) => p.1 == stem,
        None => false,
    }
}

/// Each stem in the cache built from `files` maps to the last of the files
/// whose name splits with that stem, and only stems of such files are there.
pub proof fn lemma_cache_of_files(files: Seq<Seq<char>>, stem: Seq<char>)
    ensures
        cache_of_files(files).dom().contains(stem) <==> exists|j: int|
            0 <= j < files.len() && #[trigger] has_stem(files[j], stem),
        cache_of_files(files).dom().contains(stem) ==> exists|j: int|
            0 <= j < files.len() && #[trigger] has_stem(files[j], stem) && cache_of_files(
                files,
            )[stem] == files[j] && forall|l: int|
                j < l < files.len() ==> !#[trigger] has_stem(files[l], stem),
    decreases files.len(),
{
    if files.len() > 0 {
        let prev = files.drop_last();
        lemma_cache_of_files(prev, stem);
        let last = files.len() - 1;
        assert forall|j: int| 0 <= j < prev.len() implies prev[j] == files[j] by {}
        if has_stem(files[last], stem) {
            assert(cache_of_files(files)[stem] == files[last]);
        } else {
            assert(cache_of_files(files).dom().contains(stem) == cache_of_files(prev).dom().contains(stem));
            if cache_of_files(prev).dom().contains(stem) {
                let j = choose|j: int|
                    0 <= j < prev.len() && #[trigger] has_stem(prev[j], stem) && cache_of_files(
                        prev,
                    )[stem] == prev[j] && forall|l: int|
                        j < l < prev.len() ==> !#[trigger] has_stem(prev[l], stem);
                assert(has_stem(files[j], stem));
                assert(cache_of_files(files)[stem] == files[j]);
                assert forall|l: int| j < l < files.len() implies !#[trigger] has_stem(files[l], stem) by {
                    if l < last {
                        assert(has_stem(prev[l], stem) == has_stem(files[l], stem));
                    }
                }
            }
            if exists|j: int| 0 <= j < files.len() && #[trigger] has_stem(files[j], stem) {
                let j = choose|j: int| 0 <= j < files.len() && #[trigger] has_stem(files[j], stem);
                assert(j != last);
                assert(has_stem(prev[j], stem));
            }
        }
    }
}


// ---------------------------------------------------------------------------
// Listing video files
// ---------------------------------------------------------------------------

/// An entry of a folder listing: its file name, and whether it is a folder
/// (`None` when that could not be read).
pub struct ListedEntry {
    pub name: String,
    pub is_dir: Option<bool>,
}

/// The names of the entries known to be files, in listing order.
pub open spec fn files_of_entries(entries: Seq<ListedEntry>) -> Seq<Seq<char>>
    decreases entries.len(),
{
    if entries.len() == 0 {
        Seq::empty()
    } else {
        let previous = files_of_entries(entries.drop_last());
        if entries.last().is_dir == Some(false) {
            previous.push(entries.last().name@)
        } else {
            previous
        }
    }
}

/// What `str::to_lowercase` gives for `s`.
pub uninterp spec fn lowercase_of(s: Seq<char>) -> Seq<char>;

/// `str::to_lowercase`: the lowercase form of `s` by Unicode's rules.
///
/// The result is named by `lowercase_of` and nothing more is stated of it.
#[verifier::external_body]
fn to_lowercase(s: &str) -> (res: String)
    ensures
        res@ == lowercase_of(s@),
{
    s.to_lowercase()
}

/// `result` is `input` reordered by `perm` (`result[i] == input[perm[i]]`),
/// in the order of the lowercase forms, with names of equal lowercase form in
/// their order in `input`.
pub open spec fn sorted_by_perm(result: Seq<Seq<char>>, input: Seq<Seq<char>>, perm: Seq<int>) -> bool {
    &&& result.len() == input.len()
    &&& perm.len() == input.len()
    &&& forall|i: int|
        0 <= i < result.len() ==> 0 <= #[trigger] perm[i] < input.len() && result[i] == input[perm[i]]
    &&& forall|i: int, j: int| 0 <= i < j < result.len() ==> #[trigger] perm[i] != #[trigger] perm[j]
    &&& forall|i: int, j: int|
        0 <= i < j < result.len() ==> lex_le(
            lowercase_of(#[trigger] result[i]),
            lowercase_of(#[trigger] result[j]),
        )
    &&& forall|i: int, j: int|
        0 <= i < j < result.len() && lowercase_of(#[trigger] result[i]) == lowercase_of(
            #[trigger] result[j],
        ) ==> perm[i] < perm[j]
}

/// `result` is the stable sort of `input` by lowercase form, as
/// `sort_by(|a, b| a.to_lowercase().cmp(&b.to_lowercase()))` leaves it.
pub open spec fn stable_sorted_by_lowercase(result: Seq<Seq<char>>, input: Seq<Seq<char>>) -> bool {
    exists|perm: Seq<int>| sorted_by_perm(result, input, perm)
}

/// The position at which `name` goes into the sorted list `sorted`: after
/// every name whose lowercase form does not come after its own.
pub open spec fn lowercase_insert_pos(sorted: Seq<Seq<char>>, name: Seq<char>) -> int
    decreases sorted.len(),
{
    if sorted.len() == 0 {
        0
    } else if lex_lt(lowercase_of(name), lowercase_of(sorted[0])) {
        0
    } else {
        1 + lowercase_insert_pos(sorted.drop_first(), name)
    }
}

/// The stable sort of `files` by lowercase form: each name, in order, goes in
/// after the names before it whose lowercase form does not come after its own.
pub open spec fn sorted_by_lowercase(files: Seq<Seq<char>>) -> Seq<Seq<char>>
    decreases files.len(),
{
    if files.len() == 0 {
        Seq::empty()
    } else {
        let sorted = sorted_by_lowercase(files.drop_last());
        sorted.insert(lowercase_insert_pos(sorted, files.last()), files.last())
    }
}

/// The first position whose lowercase form comes after that of `name` is
/// `lowercase_insert_pos`.
proof fn lemma_insert_pos_unique(sorted: Seq<Seq<char>>, name: Seq<char>, p: int)
    requires
        0 <= p <= sorted.len(),
        forall|i: int| 0 <= i < p ==> !lex_lt(lowercase_of(name), lowercase_of(#[trigger] sorted[i])),
        p < sorted.len() ==> lex_lt(lowercase_of(name), lowercase_of(sorted[p])),
    ensures
        lowercase_insert_pos(sorted, name) == p,
    decreases sorted.len(),
{
    if p > 0 {
        assert(!lex_lt(lowercase_of(name), lowercase_of(sorted[0])));
        let rest = sorted.drop_first();
        assert forall|i: int| 0 <= i < p - 1 implies !lex_lt(lowercase_of(name), lowercase_of(#[trigger] rest[i])) by {
            assert(rest[i] == sorted[i + 1]);
        }
        if p < sorted.len() {
            assert(rest[p - 1] == sorted[p]);
        }
        lemma_insert_pos_unique(rest, name, p - 1);
    }
}

/// The elements of `s.insert(i, a)`.
proof fn lemma_insert_index<A>(s: Seq<A>, i: int, a: A)
    requires
        0 <= i <= s.len(),
    ensures
        s.insert(i, a).len() == s.len() + 1,
        forall|k: int| 0 <= k < i ==> #[trigger] s.insert(i, a)[k] == s[k],
        s.insert(i, a)[i] == a,
        forall|k: int| i < k <= s.len() ==> #[trigger] s.insert(i, a)[k] == s[k - 1],
{
}

/// The first position of `keys` (sorted) whose key comes strictly after `key`.
fn insertion_point(keys: &Vec<Vec<char>>, key: &Vec<char>) -> (pos: usize)
    ensures
        pos <= keys@.len(),
        forall|i: int| 0 <= i < pos ==> lex_le(#[trigger] keys@[i]@, key@),
        pos < keys@.len() ==> lex_lt(key@, keys@[pos as int]@),
{
    let n = keys.len();
    let mut pos: usize = 0;
    while pos < n
        invariant
            n == keys@.len(),
            pos <= n,
            forall|i: int| 0 <= i < pos ==> lex_le(#[trigger] keys@[i]@, key@),
        decreases n - pos,
    {
        if chars_lt(key, &keys[pos]) {
            return pos;
        }
        pos = pos + 1;
    }
    pos
}

impl FilesService {
    /// Sorts file names by their lowercase forms, keeping names of equal
    /// lowercase form in their order.
    pub fn sort_by_lowercase(files: Vec<String>) -> (res: Vec<String>)
        ensures
            strings_view(res@) == sorted_by_lowercase(strings_view(files@)),
            stable_sorted_by_lowercase(strings_view(res@), strings_view(files@)),
    {
        let n = files.len();
        let mut out: Vec<String> = Vec::new();
        let mut out_keys: Vec<Vec<char>> = Vec::new();
        let ghost mut perm: Seq<int> = Seq::empty();
        let ghost input = strings_view(files@);
        let mut j: usize = 0;
        while j < n
            invariant
                n == files@.len(),
                input == strings_view(files@),
                j <= n,
                out@.len() == j,
                out_keys@.len() == j,
                perm.len() == j,
                strings_view(out@) == sorted_by_lowercase(input.take(j as int)),
                forall|i: int|
                    0 <= i < j ==> 0 <= #[trigger] perm[i] < j && out@[i]@ == input[perm[i]],
                forall|i: int| 0 <= i < j ==> #[trigger] out_keys@[i]@ == lowercase_of(out@[i]@),
                forall|a: int, b: int| 0 <= a < b < j ==> #[trigger] perm[a] != #[trigger] perm[b],
                forall|a: int, b: int|
                    0 <= a < b < j ==> lex_le(#[trigger] out_keys@[a]@, #[trigger] out_keys@[b]@),
                forall|a: int, b: int|
                    0 <= a < b < j && #[trigger] out_keys@[a]@ == #[trigger] out_keys@[b]@ ==> perm[a]
                        < perm[b],
            decreases n - j,
        {
            let lower = to_lowercase(files[j].as_str());
            let key = chars_of(lower.as_str());
            let pos = insertion_point(&out_keys, &key);
            let ghost old_out = out@;
            let ghost old_keys = out_keys@;
            let ghost old_perm = perm;
            proof {
                assert forall|i: int| pos <= i < old_keys.len() implies lex_lt(key@, #[trigger] old_keys[i]@) by {
                    if i > pos {
                        lemma_lex_le_transitive(key@, old_keys[pos as int]@, old_keys[i]@);
                    }
                }
            }
            out.insert(pos, files[j].clone());
            out_keys.insert(pos, key);
            proof {
                perm = perm.insert(pos as int, j as int);
                lemma_insert_index(old_out, pos as int, files@[j as int]);
                lemma_insert_index(old_keys, pos as int, key);
                lemma_insert_index(old_perm, pos as int, j as int);
                assert(input[j as int] == files@[j as int]@);
                let old_view = strings_view(old_out);
                assert forall|i: int| 0 <= i < pos implies !lex_lt(lowercase_of(input[j as int]), lowercase_of(#[trigger] old_view[i])) by {
                    assert(old_keys[i]@ == lowercase_of(old_out[i]@));
                }
                if pos < old_view.len() {
                    assert(old_keys[pos as int]@ == lowercase_of(old_out[pos as int]@));
                }
                lemma_insert_pos_unique(old_view, input[j as int], pos as int);
                let t = input.take(j + 1);
                assert(t.drop_last() =~= input.take(j as int));
                assert(t.last() == input[j as int]);
                assert(strings_view(out@) =~= old_view.insert(pos as int, input[j as int])) by {
                    lemma_insert_index(old_view, pos as int, input[j as int]);
                }
                let jj = j + 1;
                assert forall|i: int| 0 <= i < jj implies 0 <= #[trigger] perm[i] < jj && out@[i]@ == input[perm[i]] by {
                    if i < pos {
                        assert(perm[i] == old_perm[i]);
                    } else if i > pos {
                        assert(perm[i] == old_perm[i - 1]);
                    }
                }
                assert forall|i: int| 0 <= i < jj implies #[trigger] out_keys@[i]@ == lowercase_of(out@[i]@) by {
                    if i < pos {
                        assert(out_keys@[i] == old_keys[i]);
                    } else if i > pos {
                        assert(out_keys@[i] == old_keys[i - 1]);
                    }
                }
                assert forall|a: int, b: int| 0 <= a < b < jj implies #[trigger] perm[a] != #[trigger] perm[b] by {
                    if a != pos && b != pos {
                        let a0 = if a < pos { a } else { a - 1 };
                        let b0 = if b < pos { b } else { b - 1 };
                        assert(perm[a] == old_perm[a0]);
                        assert(perm[b] == old_perm[b0]);
                    } else if a == pos {
                        assert(perm[b] == old_perm[b - 1]);
                    } else {
                        assert(perm[a] == old_perm[a]);
                    }
                }
                assert forall|a: int, b: int| 0 <= a < b < jj implies lex_le(#[trigger] out_keys@[a]@, #[trigger] out_keys@[b]@) by {
                    if a != pos && b != pos {
                        let a0 = if a < pos { a } else { a - 1 };
                        let b0 = if b < pos { b } else { b - 1 };
                        assert(out_keys@[a] == old_keys[a0]);
                        assert(out_keys@[b] == old_keys[b0]);
                    } else if a == pos {
                        assert(out_keys@[b] == old_keys[b - 1]);
                        lemma_lex_trichotomy(key@, old_keys[b - 1]@);
                    } else {
                        assert(out_keys@[a] == old_keys[a]);
                    }
                }
                assert forall|a: int, b: int|
                    0 <= a < b < jj && #[trigger] out_keys@[a]@ == #[trigger] out_keys@[b]@ implies perm[a] < perm[b] by {
                    if a != pos && b != pos {
                        let a0 = if a < pos { a } else { a - 1 };
                        let b0 = if b < pos { b } else { b - 1 };
                        assert(out_keys@[a] == old_keys[a0]);
                        assert(out_keys@[b] == old_keys[b0]);
                        assert(perm[a] == old_perm[a0]);
                        assert(perm[b] == old_perm[b0]);
                    } else if a == pos {
                        assert(out_keys@[b] == old_keys[b - 1]);
                        lemma_lex_trichotomy(key@, key@);
                    } else {
                        assert(perm[a] == old_perm[a]);
                    }
                }
            }
            j = j + 1;
        }
        proof {
            assert(input.take(n as int) =~= input);
            let result = strings_view(out@);
            assert forall|i: int| 0 <= i < result.len() implies 0 <= #[trigger] perm[i] < input.len() && result[i] == input[perm[i]] by {
                assert(result[i] == out@[i]@);
            }
            assert forall|a: int, b: int|
                0 <= a < b < result.len() implies lex_le(lowercase_of(#[trigger] result[a]), lowercase_of(#[trigger] result[b])) by {
                assert(out_keys@[a]@ == lowercase_of(out@[a]@));
                assert(out_keys@[b]@ == lowercase_of(out@[b]@));
            }
            assert forall|a: int, b: int|
                0 <= a < b < result.len() && lowercase_of(#[trigger] result[a]) == lowercase_of(#[trigger] result[b])
                    implies perm[a] < perm[b] by {
                assert(out_keys@[a]@ == lowercase_of(out@[a]@));
                assert(out_keys@[b]@ == lowercase_of(out@[b]@));
            }
            assert(sorted_by_perm(result, input, perm));
        }
        out
    }

    /// The names of the files in a folder listing (folders and entries whose kind
    /// could not be read left out), sorted by their lowercase forms.
    pub fn get_files_list(entries: &Vec<ListedEntry>) -> (res: Vec<String>)
        ensures
            strings_view(res@) == sorted_by_lowercase(files_of_entries(entries@)),
            stable_sorted_by_lowercase(strings_view(res@), files_of_entries(entries@)),
    {
        let n = entries.len();
        let mut files: Vec<String> = Vec::new();
        let mut i: usize = 0;
        while i < n
            invariant
                n == entries@.len(),
                i <= n,
                strings_view(files@) == files_of_entries(entries@.take(i as int)),
            decreases n - i,
        {
            let entry = &entries[i];
            proof {
                assert(entries@.take(i + 1).drop_last() =~= entries@.take(i as int));
                assert(entries@.take(i + 1).last() == *entry);
            }
            match entry.is_dir {
                Some(false) => {
                    files.push(entry.name.clone());
                    assert(strings_view(files@) =~= files_of_entries(entries@.take(i as int)).push(entry.name@));
                },
                _ => {},
            }
            i = i + 1;
        }
        assert(entries@.take(n as int) =~= entries@);
        FilesService::sort_by_lowercase(files)
    }

    /// The video files of the videos folder, from its listing: the names of its
    /// files, sorted by their lowercase forms.
    pub fn get_video_files(entries: &Vec<ListedEntry>) -> (res: Vec<String>)
        ensures
            strings_view(res@) == sorted_by_lowercase(files_of_entries(entries@)),
            stable_sorted_by_lowercase(strings_view(res@), files_of_entries(entries@)),
    {
        FilesService::get_files_list(entries)
    }
}

} // verus!
