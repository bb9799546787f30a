//! Paths as text.
//!
//! A path is a sequence of characters in which `/` separates directories.
//! Its file name is everything after the last separator; nothing is
//! normalised, so a path that ends in a separator has the empty file name.

use crate::text::{
    chars_of, find_last, first_position, last_position, lemma_last_position,
    lemma_last_position_is, lemma_last_position_none, same_text,
};
use rand::Rng;
use vstd::prelude::*;
use vstd::string::*;

verus! {

/// A path split into the directory that holds it and its file name.
pub struct PathComponents {
    pub parent_path: String,
    pub file_name: String,
}

/// Index at which the file name of `path` starts.
pub open spec fn file_name_start(path: Seq<char>) -> int {
    match last_position(path, '/') {
        Some(i) => i + 1,
        None => 0,
    }
}

/// The file name of `path`: what follows its last separator.
pub open spec fn file_name_of(path: Seq<char>) -> Seq<char> {
    path.subrange(file_name_start(path), path.len() as int)
}

/// The directory of `path`: what precedes its last separator, `/` itself
/// when that separator is the first character, and the empty text when the
/// path has no separator.
pub open spec fn parent_of(path: Seq<char>) -> Seq<char> {
    match last_position(path, '/') {
        Some(i) => if i == 0 {
            seq!['/']
        } else {
            path.subrange(0, i)
        },
        None => Seq::empty(),
    }
}

/// The path of `name` inside the directory `parent`.  A separator is put
/// between the two unless `parent` is empty or already ends in one.
pub open spec fn join_path(parent: Seq<char>, name: Seq<char>) -> Seq<char> {
    if parent.len() == 0 {
        name
    } else if parent.last() == '/' {
        parent + name
    } else {
        parent + seq!['/'] + name
    }
}

/// Whether the file name of `path` names a file: it is neither empty nor
/// one of the directory names `.` and `..`.
pub open spec fn has_file_name(path: Seq<char>) -> bool {
    let name = file_name_of(path);
    name.len() > 0 && name != seq!['.'] && name != seq!['.', '.']
}

/// Index, within the file name `name`, of the dot that starts its
/// extension.  A dot in first place starts no extension, and `..` has none.
pub open spec fn extension_dot(name: Seq<char>) -> Option<int> {
    if name == seq!['.', '.'] {
        None
    } else {
        match last_position(name, '.') {
            Some(i) => if i > 0 {
                Some(i)
            } else {
                None
            },
            None => None,
        }
    }
}

/// The extension of `path`: what follows the last dot of its file name.
pub open spec fn extension_of(path: Seq<char>) -> Option<Seq<char>> {
    let name = file_name_of(path);
    match extension_dot(name) {
        Some(i) => Some(name.subrange(i + 1, name.len() as int)),
        None => None,
    }
}

/// The extension of `path`, or the empty text when it has none.
pub open spec fn extension_or_empty(path: Seq<char>) -> Seq<char> {
    match extension_of(path) {
        Some(extension) => extension,
        None => Seq::empty(),
    }
}

/// The file name of `path` without its extension.
pub open spec fn file_stem_of(path: Seq<char>) -> Seq<char> {
    let name = file_name_of(path);
    match extension_dot(name) {
        Some(i) => name.subrange(0, i),
        None => name,
    }
}

/// The part of the file name `name` before its first dot, a dot in first
/// place not counting.
pub open spec fn file_prefix_of(name: Seq<char>) -> Seq<char> {
    if name.len() == 0 {
        name
    } else {
        match first_position(name.subrange(1, name.len() as int), '.') {
            Some(i) => name.subrange(0, i + 1),
            None => name,
        }
    }
}

/// `path` with the extension of its file name replaced by `extension`, or
/// removed when `extension` is empty.  A path without a file name is left
/// as it is.
pub open spec fn with_extension(path: Seq<char>, extension: Seq<char>) -> Seq<char> {
    if !has_file_name(path) {
        path
    } else {
        let base = path.subrange(0, file_name_start(path) + file_stem_of(path).len());
        if extension.len() == 0 {
            base
        } else {
            base + seq!['.'] + extension
        }
    }
}

/// Whether `c` is an ASCII letter or an ASCII decimal digit.
pub open spec fn is_ascii_alphanumeric(c: char) -> bool {
    ('a' <= c && c <= 'z') || ('A' <= c && c <= 'Z') || ('0' <= c && c <= '9')
}

/// Whether `text` is a run of exactly `length` ASCII letters and digits.
pub open spec fn is_alphanumeric_run(text: Seq<char>, length: int) -> bool {
    &&& text.len() == length
    &&& forall|i: int| 0 <= i < text.len() ==> is_ascii_alphanumeric(#[trigger] text[i])
}

/// The name that stands in for `dest` when `dest` is taken: the stem of
/// `dest`, a hyphen, `random`, a dot and the extension of `dest`, in the
/// directory of `dest`.  The dot is there even when `dest` has no extension.
pub open spec fn unique_candidate(dest: Seq<char>, random: Seq<char>) -> Seq<char> {
    join_path(
        parent_of(dest),
        file_stem_of(dest) + seq!['-'] + random + seq!['.'] + extension_or_empty(dest),
    )
}

/// Whether files with the extension `extension` stay behind when media is
/// copied out: sidecars, pages, exported metadata and archives.
pub open spec fn is_left_behind(extension: Seq<char>) -> bool {
    extension == "json"@ || extension == "html"@ || extension == "xml"@ || extension == "zip"@
}

/// Where the file at `path` goes when media is copied to `output_dir`:
/// under its own file name, directly in `output_dir`.  `None` for a path
/// without a file name and for a file that stays behind.
pub open spec fn output_destination_of(output_dir: Seq<char>, path: Seq<char>) -> Option<
    Seq<char>,
> {
    if has_file_name(path) && !is_left_behind(extension_or_empty(path)) {
        Some(join_path(output_dir, file_name_of(path)))
    } else {
        None
    }
}

/// Splitting a path and joining the parts again gives the path back, unless
/// a second separator stands right before the last one.
pub proof fn lemma_split_then_join(path: Seq<char>)
    requires
        match last_position(path, '/') {
            Some(i) => i == 0 || path[i - 1] != '/',
            None => true,
        },
    ensures
        join_path(parent_of(path), file_name_of(path)) == path,
{
    lemma_last_position(path, '/');
    match last_position(path, '/') {
        Some(i) => {
            if i == 0 {
                assert(seq!['/'] + path.subrange(1, path.len() as int) =~= path);
            } else {
                assert(path.subrange(0, i) + seq!['/'] + path.subrange(i + 1, path.len() as int)
                    =~= path);
            }
        },
        None => {
            assert(path.subrange(0, path.len() as int) =~= path);
        },
    }
}

/// The file name of a joined path is the name that was joined, as long as
/// the name holds no separator.
pub proof fn lemma_join_then_split(parent: Seq<char>, name: Seq<char>)
    requires
        !name.contains('/'),
    ensures
        file_name_of(join_path(parent, name)) == name,
{
    let joined = join_path(parent, name);
    if parent.len() == 0 {
        lemma_last_position_none(joined, '/');
        assert(joined.subrange(0, joined.len() as int) =~= joined);
    } else {
        let cut = joined.len() - name.len();
        assert(joined[cut - 1] == '/');
        assert forall|j: int| cut - 1 < j < joined.len() implies joined[j] != '/' by {
            assert(joined[j] == name[j - cut]);
        }
        lemma_last_position_is(joined, '/', cut - 1);
        assert(joined.subrange(cut, joined.len() as int) =~= name);
    }
}

/// A file that takes on another extension and then its own again has its
/// path back.  This holds of every path with a file name whose own
/// extension, where it has one, is not empty, and of every other
/// extension that is not empty and holds neither a dot nor a separator.
pub proof fn lemma_extension_round_trip(path: Seq<char>, other: Seq<char>)
    requires
        has_file_name(path),
        extension_of(path) != Some(Seq::<char>::empty()),
        other.len() > 0,
        !other.contains('.'),
        !other.contains('/'),
    ensures
        with_extension(with_extension(path, other), extension_or_empty(path)) == path,
{
    let start = file_name_start(path);
    let name = file_name_of(path);
    let stem = file_stem_of(path);
    let base = path.subrange(0, start + stem.len());
    let renamed = base + seq!['.'] + other;
    lemma_last_position(path, '/');
    lemma_last_position(name, '.');
    assert(renamed == with_extension(path, other));
    assert(stem.len() > 0);
    // The renamed path has its file name where the path has it.
    assert forall|j: int| start <= j < renamed.len() implies renamed[j] != '/' by {
        if j < base.len() {
            assert(renamed[j] == path[j]);
        } else if j > base.len() {
            assert(renamed[j] == other[j - base.len() - 1]);
            assert(other.contains(other[j - base.len() - 1]));
        }
    }
    assert(file_name_start(renamed) == start) by {
        if start > 0 {
            assert(renamed[start - 1] == path[start - 1]);
            lemma_last_position_is(renamed, '/', start - 1);
        } else {
            lemma_last_position_none(renamed, '/');
        }
    }
    let renamed_name = file_name_of(renamed);
    assert(renamed_name =~= stem + seq!['.'] + other);
    // Its extension starts at the dot that was put behind the stem.
    assert(renamed_name[stem.len() as int] == '.');
    assert forall|j: int| stem.len() < j < renamed_name.len() implies renamed_name[j] != '.' by {
        assert(renamed_name[j] == other[j - stem.len() - 1]);
        assert(other.contains(other[j - stem.len() - 1]));
    }
    lemma_last_position_is(renamed_name, '.', stem.len() as int);
    assert(renamed_name != seq!['.']) by {
        assert(seq!['.'].len() == 1);
    }
    assert(renamed_name != seq!['.', '.']) by {
        assert(seq!['.', '.'].len() == 2);
    }
    assert(has_file_name(renamed));
    assert(file_stem_of(renamed) =~= stem);
    assert(renamed.subrange(0, start + stem.len()) =~= base);
    let own = extension_or_empty(path);
    let restored = with_extension(renamed, own);
    match extension_dot(name) {
        Some(i) => {
            assert(own == name.subrange(i + 1, name.len() as int));
            assert(own.len() > 0) by {
                if own.len() == 0 {
                    assert(own =~= Seq::<char>::empty());
                }
            }
            assert(restored == base + seq!['.'] + own);
            assert(base + seq!['.'] + own =~= path);
        },
        None => {
            assert(own.len() == 0);
            assert(restored == base);
            assert(base =~= path);
        },
    }
}

/// Splits `path` into the directory that holds it and its file name.
pub fn split_path_components(path: &str) -> (components: PathComponents)
    ensures
        components.parent_path@ == parent_of(path@),
        components.file_name@ == file_name_of(path@),
{
    let chars = chars_of(path);
    let n = chars.len();
    match find_last(&chars, 0, n, '/') {
        Some(i) => {
            proof {
                assert(chars@.subrange(0, n as int) =~= path@);
                reveal_strlit("/");
                assert("/"@ =~= seq!['/']);
            }
            let parent_path = if i == 0 {
                String::from_str("/")
            } else {
                String::from_str(path.substring_char(0, i))
            };
            let file_name = String::from_str(path.substring_char(i + 1, n));
            PathComponents { parent_path, file_name }
        },
        None => {
            proof {
                assert(chars@.subrange(0, n as int) =~= path@);
                assert(path@.subrange(0, n as int) =~= path@);
            }
            PathComponents { parent_path: String::new(), file_name: String::from_str(path) }
        },
    }
}

/// Joins a directory and a name into one path.
pub fn join_path_text(parent: &str, name: &str) -> (joined: String)
    ensures
        joined@ == join_path(parent@, name@),
{
    let chars = chars_of(parent);
    let n = chars.len();
    if n == 0 {
        return String::from_str(name);
    }
    let mut joined = String::from_str(parent);
    if chars[n - 1] != '/' {
        proof {
            reveal_strlit("/");
            assert("/"@ =~= seq!['/']);
        }
        joined.append("/");
    }
    joined.append(name);
    joined
}

/// Finds the dot that starts the extension of the file name `chars[start..]`,
/// as an index into `chars`.
pub(crate) fn find_extension_dot(chars: &Vec<char>, start: usize) -> (found: Option<usize>)
    requires
        start <= chars.len(),
    ensures
        match found {
            Some(i) => start < i < chars.len() && extension_dot(
                chars@.subrange(start as int, chars.len() as int),
            ) == Some(i - start),
            None => extension_dot(chars@.subrange(start as int, chars.len() as int)) is None,
        },
{
    let n = chars.len();
    let ghost name = chars@.subrange(start as int, n as int);
    if n - start == 2 && chars[start] == '.' && chars[start + 1] == '.' {
        assert(name =~= seq!['.', '.']);
        return None;
    }
    proof {
        if name == seq!['.', '.'] {
            assert(name.len() == 2);
            assert(name[0] == '.' && name[1] == '.');
            assert(name[0] == chars@[start as int] && name[1] == chars@[start + 1]);
        }
    }
    match find_last(chars, start, n, '.') {
        Some(i) => if i > start {
            Some(i)
        } else {
            None
        },
        None => None,
    }
}

/// Finds where the file name of `chars` starts.
pub(crate) fn find_file_name_start(chars: &Vec<char>) -> (start: usize)
    ensures
        start == file_name_start(chars@),
        start <= chars.len(),
{
    let n = chars.len();
    proof {
        assert(chars@.subrange(0, n as int) =~= chars@);
    }
    match find_last(chars, 0, n, '/') {
        Some(i) => i + 1,
        None => 0,
    }
}

/// The extension of `image_file_path`, if its file name has one.
pub fn get_extension(image_file_path: &str) -> (extension: Option<&str>)
    ensures
        match extension {
            Some(e) => extension_of(image_file_path@) == Some(e@),
            None => extension_of(image_file_path@) is None,
        },
{
    let chars = chars_of(image_file_path);
    let n = chars.len();
    let start = find_file_name_start(&chars);
    match find_extension_dot(&chars, start) {
        Some(i) => {
            proof {
                let name = file_name_of(image_file_path@);
                assert(name.subrange(i - start + 1, name.len() as int)
                    =~= image_file_path@.subrange(i + 1, n as int));
            }
            Some(image_file_path.substring_char(i + 1, n))
        },
        None => None,
    }
}

/// `path` with the extension of its file name replaced by `extension`, or
/// removed when `extension` is empty.
pub fn replace_extension(path: &str, extension: &str) -> (replaced: String)
    ensures
        replaced@ == with_extension(path@, extension@),
{
    let chars = chars_of(path);
    let n = chars.len();
    let start = find_file_name_start(&chars);
    if !names_a_file(&chars, start) {
        return String::from_str(path);
    }
    let stem_end = match find_extension_dot(&chars, start) {
        Some(i) => i,
        None => n,
    };
    proof {
        assert(stem_end == file_name_start(path@) + file_stem_of(path@).len());
    }
    let mut replaced = String::from_str(path.substring_char(0, stem_end));
    if extension.unicode_len() > 0 {
        proof {
            reveal_strlit(".");
            assert("."@ =~= seq!['.']);
        }
        replaced.append(".");
        replaced.append(extension);
    }
    replaced
}

/// Draws one character with `Rng::sample` from the thread-local generator
/// of `rand`, under the distribution `rand::distributions::Alphanumeric`.
/// The contract states what holds of every draw: the character is an ASCII
/// letter or digit.  Which one comes out is left open.
#[verifier::external_body]
fn sample_alphanumeric() -> (c: char)
    ensures
        is_ascii_alphanumeric(c),
{
    char::from(rand::thread_rng().sample(rand::distributions::Alphanumeric))
}

/// `String::push` of the standard library: appends one character.
#[verifier::external_body]
fn push_char(text: &mut String, c: char)
    ensures
        final(text)@ == old(text)@.push(c),
{
    text.push(c)
}

/// A text of `length` random ASCII letters and digits.
pub fn generate_random_string(length: usize) -> (text: String)
    ensures
        is_alphanumeric_run(text@, length as int),
{
    let mut text = String::new();
    for drawn in 0..length
        invariant
            is_alphanumeric_run(text@, drawn as int),
    {
        let c = sample_alphanumeric();
        push_char(&mut text, c);
    }
    text
}

/// The name that stands in for `dest` when `dest` is taken, made with the
/// given random part.
pub fn unique_path_candidate(dest: &str, random: &str) -> (candidate: String)
    ensures
        candidate@ == unique_candidate(dest@, random@),
{
    let chars = chars_of(dest);
    let n = chars.len();
    let start = find_file_name_start(&chars);
    let components = split_path_components(dest);
    let ghost name = file_name_of(dest@);
    let mut file_name;
    proof {
        reveal_strlit("-");
        reveal_strlit(".");
        assert("-"@ =~= seq!['-']);
        assert("."@ =~= seq!['.']);
    }
    match find_extension_dot(&chars, start) {
        Some(i) => {
            proof {
                assert(name.subrange(0, i - start) =~= dest@.subrange(start as int, i as int));
                assert(name.subrange(i - start + 1, name.len() as int) =~= dest@.subrange(
                    i + 1,
                    n as int,
                ));
            }
            file_name = String::from_str(dest.substring_char(start, i));
            file_name.append("-");
            file_name.append(random);
            file_name.append(".");
            file_name.append(dest.substring_char(i + 1, n));
        },
        None => {
            file_name = String::from_str(dest.substring_char(start, n));
            file_name.append("-");
            file_name.append(random);
            file_name.append(".");
            assert(file_name@ =~= name + seq!['-'] + random@ + seq!['.'] + Seq::<char>::empty());
        },
    }
    join_path_text(components.parent_path.as_str(), file_name.as_str())
}

/// A fresh name that stands in for `dest`: `unique_candidate` with six
/// random ASCII letters and digits.
pub fn generate_unique_path(dest: &str) -> (candidate: String)
    ensures
        exists|random: Seq<char>|
            is_alphanumeric_run(random, 6) && candidate@ == unique_candidate(dest@, random),
{
    let random = generate_random_string(6);
    unique_path_candidate(dest, random.as_str())
}

/// Tests whether the file name `chars[start..]` names a file: it is
/// neither empty nor one of the directory names `.` and `..`.
pub(crate) fn names_a_file(chars: &Vec<char>, start: usize) -> (named: bool)
    requires
        start <= chars.len(),
    ensures
        named == ({
            let name = chars@.subrange(start as int, chars.len() as int);
            name.len() > 0 && name != seq!['.'] && name != seq!['.', '.']
        }),
{
    let n = chars.len();
    let ghost name = chars@.subrange(start as int, n as int);
    proof {
        if n - start == 1 {
            assert(name[0] == chars@[start as int]);
            if name[0] == '.' {
                assert(name =~= seq!['.']);
            }
        }
        if n - start == 2 {
            assert(name[0] == chars@[start as int] && name[1] == chars@[start + 1]);
            if name[0] == '.' && name[1] == '.' {
                assert(name =~= seq!['.', '.']);
            }
        }
        assert(seq!['.'].len() == 1);
        assert(seq!['.', '.'].len() == 2);
        assert(seq!['.'][0] == '.');
        assert(seq!['.', '.'][0] == '.' && seq!['.', '.'][1] == '.');
    }
    !(n == start || (n - start == 1 && chars[start] == '.') || (n - start == 2 && chars[start]
        == '.' && chars[start + 1] == '.'))
}

/// Where the file at `path` goes when media is copied to `output_dir`, or
/// `None` when it is not to be copied.
pub fn output_destination(output_dir: &str, path: &str) -> (destination: Option<String>)
    ensures
        match destination {
            Some(target) => output_destination_of(output_dir@, path@) == Some(target@),
            None => output_destination_of(output_dir@, path@) is None,
        },
{
    let chars = chars_of(path);
    let n = chars.len();
    let start = find_file_name_start(&chars);
    if !names_a_file(&chars, start) {
        return None;
    }
    let left_behind = match get_extension(path) {
        Some(extension) => same_text(extension, "json") || same_text(extension, "html")
            || same_text(extension, "xml") || same_text(extension, "zip"),
        None => {
            proof {
                reveal_strlit("json");
                reveal_strlit("html");
                reveal_strlit("xml");
                reveal_strlit("zip");
            }
            false
        },
    };
    if left_behind {
        None
    } else {
        Some(join_path_text(output_dir, path.substring_char(start, n)))
    }
}

} // verus!
