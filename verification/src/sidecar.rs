//! The sidecars of a batch and the timestamp each of them carries.
//!
//! A sidecar is a JSON document beside a media file.  The time at which
//! the picture was taken stands in it as a text of decimal digits, the
//! seconds since the start of 1970, under `photoTakenTime.timestamp`.
//! Reading the document is left to `serde_json` and printing the time to
//! `chrono`; what is read and how it is printed is decided here.

use crate::file_utils::{file_name_of, find_file_name_start, has_file_name, names_a_file};
use crate::fix_stupid_google_photos_takeout_naming_bug::{
    all_digits, ends_in_json, has_json_suffix,
};
use crate::text::{chars_of, contains, contains_text, is_decimal_digit, is_digit};
use vstd::prelude::*;
use vstd::string::*;

verus! {

/// A parsed JSON document of `serde_json`.  Nothing of its inside is
/// visible here; it is handed from one call of `serde_json` to the next.
#[verifier::external_type_specification]
#[verifier::external_body]
pub struct ExJsonValue(serde_json::Value);

/// The error with which `serde_json` refuses a text.
#[verifier::external_type_specification]
#[verifier::external_body]
pub struct ExJsonError(serde_json::Error);

/// The document that `serde_json::from_str` reads from `text`, or `None`
/// where it refuses the text.
pub uninterp spec fn json_document(text: Seq<char>) -> Option<serde_json::Value>;

/// The member that `serde_json::Value::get` finds in `value` under the
/// key `key`, or `None` where `value` is no object or has no such member.
pub uninterp spec fn json_member(value: serde_json::Value, key: Seq<char>) -> Option<
    serde_json::Value,
>;

/// The text that `serde_json::Value::as_str` finds in `value`, or `None`
/// where `value` is no string.
pub uninterp spec fn json_string(value: serde_json::Value) -> Option<Seq<char>>;

/// The text that `chrono` prints for the moment `seconds` and
/// `nanoseconds` after the start of 1970 in UTC under the format
/// `pattern`, or `None` where the moment is out of its range or it cannot
/// print the moment under that format.
pub uninterp spec fn utc_timestamp_text(seconds: int, nanoseconds: int, pattern: Seq<char>)
    -> Option<Seq<char>>;

/// Calls `serde_json::from_str` for a `serde_json::Value`.  The contract
/// only names the result: `Ok` holds the document `json_document(text)`,
/// and `Err` comes exactly where there is none.
#[verifier::external_body]
fn parse_json(text: &str) -> (parsed: Result<serde_json::Value, serde_json::Error>)
    ensures
        match parsed {
            Ok(value) => json_document(text@) == Some(value),
            Err(_) => json_document(text@) is None,
        },
{
    serde_json::from_str(text)
}

/// Calls `serde_json::Value::get` with a text key.  The contract only
/// names the result: the member `json_member(value, key)` where there is
/// one, and `None` where there is none.
#[verifier::external_body]
fn json_get<'a>(value: &'a serde_json::Value, key: &str) -> (member: Option<
    &'a serde_json::Value,
>)
    ensures
        match member {
            Some(found) => json_member(*value, key@) == Some(*found),
            None => json_member(*value, key@) is None,
        },
{
    value.get(key)
}

/// `serde_json::Value::as_str` returns the text of a string value and
/// `None` for every other value.  The contract only names the result.
pub assume_specification<'a>[ serde_json::Value::as_str ](value: &'a serde_json::Value) -> (text:
    Option<&'a str>)
    ensures
        match text {
            Some(found) => json_string(*value) == Some(found@),
            None => json_string(*value) is None,
        },
;

/// Makes the moment with `chrono::DateTime::from_timestamp` and prints it
/// with `DateTime::format` and `DelayedFormat::write_to`.  The contract
/// only names the result: the text `utc_timestamp_text` of the three
/// arguments, and `None` where `chrono` has no such moment or reports an
/// error while printing.
#[verifier::external_body]
fn format_utc_timestamp(seconds: i64, nanoseconds: u32, pattern: &str) -> (text: Option<String>)
    ensures
        match text {
            Some(printed) => utc_timestamp_text(seconds as int, nanoseconds as int, pattern@)
                == Some(printed@),
            None => utc_timestamp_text(seconds as int, nanoseconds as int, pattern@) is None,
        },
{
    let moment = chrono::DateTime::from_timestamp(seconds, nanoseconds)?;
    let mut text = String::new();
    moment.format(pattern).write_to(&mut text).ok()?;
    Some(text)
}

/// The number that a run of decimal digits stands for.
pub open spec fn decimal_value(digits: Seq<char>) -> int
    decreases digits.len(),
{
    if digits.len() == 0 {
        0
    } else {
        decimal_value(digits.drop_last()) * 10 + (digits.last() as int - 48)
    }
}

/// The number that `text` stands for: an optional sign, `+` or `-`, and
/// then one or more decimal digits and nothing else.  `None` where the
/// text is not of that form or the number does not fit in 64 bits.
pub open spec fn parsed_i64(text: Seq<char>) -> Option<int> {
    let signed = text.len() > 0 && (text[0] == '-' || text[0] == '+');
    let digits = if signed {
        text.subrange(1, text.len() as int)
    } else {
        text
    };
    let value = if signed && text[0] == '-' {
        -decimal_value(digits)
    } else {
        decimal_value(digits)
    };
    if digits.len() > 0 && all_digits(digits) && i64::MIN <= value <= i64::MAX {
        Some(value)
    } else {
        None
    }
}

/// The text under `photoTakenTime.timestamp` in the JSON document
/// `document`, where the document has one.
pub open spec fn photo_taken_text(document: Seq<char>) -> Option<Seq<char>> {
    match json_document(document) {
        Some(root) => match json_member(root, "photoTakenTime"@) {
            Some(taken) => match json_member(taken, "timestamp"@) {
                Some(stamp) => json_string(stamp),
                None => None,
            },
            None => None,
        },
        None => None,
    }
}

/// The seconds since the start of 1970 at which the picture of the
/// sidecar `document` was taken.
pub open spec fn photo_taken_seconds(document: Seq<char>) -> Option<int> {
    match photo_taken_text(document) {
        Some(text) => parsed_i64(text),
        None => None,
    }
}

/// The format in which a timestamp is written into a media file: date and
/// time of day with colons, milliseconds, and the offset from UTC.
pub open spec fn tag_time_pattern() -> Seq<char> {
    "%Y:%m:%d %H:%M:%S%.3f%:z"@
}

/// The timestamp of the sidecar `document` as it is written into the
/// media file.
pub open spec fn metadata_of(document: Seq<char>) -> Option<Seq<char>> {
    match photo_taken_seconds(document) {
        Some(seconds) => utc_timestamp_text(seconds, 0, tag_time_pattern()),
        None => None,
    }
}

/// Whether the file name `name` holds one of the texts of `excluded`.
pub open spec fn is_excluded_name(name: Seq<char>, excluded: Seq<Seq<char>>) -> bool {
    exists|i: int| 0 <= i < excluded.len() && contains_text(name, #[trigger] excluded[i])
}

/// Whether the file at `path` stays in a batch from which the names in
/// `excluded` are kept out: it has a file name, and that name holds none
/// of them.
pub open spec fn is_kept(path: Seq<char>, excluded: Seq<Seq<char>>) -> bool {
    has_file_name(path) && !is_excluded_name(file_name_of(path), excluded)
}

/// The names of the files of an export that look like sidecars and
/// describe no media file.
pub open spec fn administrative_names() -> Seq<Seq<char>> {
    seq![
        "print-subscriptions.json"@,
        "shared_album_comments.json"@,
        "user-generated-memory-titles.json"@,
    ]
}

/// A run of digits stands for a number that is not negative.
pub proof fn lemma_decimal_value_not_negative(digits: Seq<char>)
    requires
        all_digits(digits),
    ensures
        decimal_value(digits) >= 0,
    decreases digits.len(),
{
    if digits.len() > 0 {
        assert(is_decimal_digit(digits[digits.len() - 1]));
        assert(all_digits(digits.drop_last())) by {
            assert forall|i: int| 0 <= i < digits.drop_last().len() implies is_decimal_digit(
                #[trigger] digits.drop_last()[i],
            ) by {
                assert(digits.drop_last()[i] == digits[i]);
            }
        }
        lemma_decimal_value_not_negative(digits.drop_last());
    }
}

/// The number of a run of digits is at least the number of each of its
/// prefixes.
pub proof fn lemma_decimal_value_grows(digits: Seq<char>, count: int)
    requires
        all_digits(digits),
        0 <= count <= digits.len(),
    ensures
        decimal_value(digits.take(count)) <= decimal_value(digits),
    decreases digits.len(),
{
    if count == digits.len() {
        assert(digits.take(count) =~= digits);
    } else {
        let shorter = digits.drop_last();
        assert(is_decimal_digit(digits[digits.len() - 1]));
        assert(all_digits(shorter)) by {
            assert forall|i: int| 0 <= i < shorter.len() implies is_decimal_digit(
                #[trigger] shorter[i],
            ) by {
                assert(shorter[i] == digits[i]);
            }
        }
        lemma_decimal_value_grows(shorter, count);
        lemma_decimal_value_not_negative(shorter);
        assert(shorter.take(count) =~= digits.take(count));
    }
}

/// Reads a number from `text`: an optional sign, `+` or `-`, and then one
/// or more decimal digits and nothing else.  `None` where the text is not
/// of that form or the number does not fit in 64 bits.
pub fn parse_i64(text: &str) -> (value: Option<i64>)
    ensures
        match value {
            Some(number) => parsed_i64(text@) == Some(number as int),
            None => parsed_i64(text@) is None,
        },
{
    let chars = chars_of(text);
    let n = chars.len();
    if n == 0 {
        return None;
    }
    let negative = chars[0] == '-';
    let start: usize = if chars[0] == '-' || chars[0] == '+' {
        1
    } else {
        0
    };
    if start == n {
        return None;
    }
    let ghost digits = text@.subrange(start as int, n as int);
    proof {
        if start == 0 {
            assert(digits =~= text@);
        }
    }
    let mut magnitude: i128 = 0;
    let mut i: usize = start;
    assert(digits.take(0) =~= Seq::<char>::empty());
    while i < n
        invariant
            start <= i <= n,
            n == chars.len(),
            chars@ == text@,
            n == text@.len(),
            n > 0,
            digits == text@.subrange(start as int, n as int),
            start == 0 ==> digits == text@,
            start == if text@[0] == '-' || text@[0] == '+' {
                1int
            } else {
                0int
            },
            all_digits(digits.take(i - start)),
            magnitude == decimal_value(digits.take(i - start)),
            0 <= magnitude <= 9223372036854775808,
        decreases n - i,
    {
        let c = chars[i];
        let ghost seen = digits.take(i + 1 - start);
        proof {
            assert(digits[i - start] == c);
            assert(seen.drop_last() =~= digits.take(i - start));
            assert(seen.last() == c);
        }
        if !is_digit(c) {
            assert(!all_digits(digits)) by {
                assert(!is_decimal_digit(digits[i - start]));
            }
            return None;
        }
        let digit: u8 = c as u8 - 48;
        magnitude = magnitude * 10 + digit as i128;
        proof {
            assert(all_digits(seen)) by {
                assert forall|k: int| 0 <= k < seen.len() implies is_decimal_digit(
                    #[trigger] seen[k],
                ) by {
                    if k < seen.len() - 1 {
                        assert(seen[k] == digits.take(i - start)[k]);
                    }
                }
            }
        }
        if magnitude > 9223372036854775808 {
            proof {
                if all_digits(digits) {
                    lemma_decimal_value_grows(digits, i + 1 - start);
                    assert(decimal_value(digits) > 9223372036854775808);
                }
            }
            return None;
        }
        i = i + 1;
    }
    proof {
        assert(digits.take(n - start) =~= digits);
    }
    if negative {
        Some((-magnitude) as i64)
    } else if magnitude > 9223372036854775807 {
        None
    } else {
        Some(magnitude as i64)
    }
}

/// The seconds since the start of 1970 at which the picture of the
/// sidecar `json_text` was taken: the text under
/// `photoTakenTime.timestamp`, read as a number.  `None` where the text
/// is no JSON document, has no such member, the member is no string, or
/// the string is no number of 64 bits.
pub fn photo_taken_timestamp(json_text: &str) -> (seconds: Option<i64>)
    ensures
        match seconds {
            Some(number) => photo_taken_seconds(json_text@) == Some(number as int),
            None => photo_taken_seconds(json_text@) is None,
        },
{
    let root = match parse_json(json_text) {
        Ok(value) => value,
        Err(_) => {
            return None;
        },
    };
    let taken = match json_get(&root, "photoTakenTime") {
        Some(member) => member,
        None => {
            return None;
        },
    };
    let stamp = match json_get(taken, "timestamp") {
        Some(member) => member,
        None => {
            return None;
        },
    };
    match stamp.as_str() {
        Some(text) => parse_i64(text),
        None => None,
    }
}

/// Prints the moment `seconds` and `nanoseconds` after the start of 1970
/// in UTC as it is written into a media file.  `None` where the moment
/// cannot be printed.
pub fn format_tag_time(seconds: i64, nanoseconds: u32) -> (text: Option<String>)
    ensures
        match text {
            Some(printed) => utc_timestamp_text(
                seconds as int,
                nanoseconds as int,
                tag_time_pattern(),
            ) == Some(printed@),
            None => utc_timestamp_text(seconds as int, nanoseconds as int, tag_time_pattern())
                is None,
        },
{
    format_utc_timestamp(seconds, nanoseconds, "%Y:%m:%d %H:%M:%S%.3f%:z")
}

/// The timestamp of the sidecar `json_text` as it is written into the
/// media file, or `None` where the sidecar carries none that can be
/// printed.
pub fn get_metadata_from_json(json_text: &str) -> (metadata: Option<String>)
    ensures
        match metadata {
            Some(printed) => metadata_of(json_text@) == Some(printed@),
            None => metadata_of(json_text@) is None,
        },
{
    match photo_taken_timestamp(json_text) {
        Some(seconds) => format_tag_time(seconds, 0),
        None => None,
    }
}

/// Tests whether the file name `name` holds one of the texts of
/// `excluded`.
pub fn is_excluded(name: &str, excluded: &Vec<String>) -> (result: bool)
    ensures
        result == is_excluded_name(name@, excluded.deep_view()),
{
    let ghost names = excluded.deep_view();
    for i in 0..excluded.len()
        invariant
            names == excluded.deep_view(),
            forall|k: int| 0 <= k < i ==> !contains_text(name@, #[trigger] names[k]),
    {
        assert(names[i as int] == excluded@[i as int]@);
        if contains(name, excluded[i].as_str()) {
            return true;
        }
    }
    false
}

/// Keeps the files of `files` that may stand in a batch: those with a file
/// name that holds none of the texts of `excluded_files`.  The order is
/// kept.
pub fn filter_excluded_files(files: Vec<String>, excluded_files: &Vec<String>) -> (kept: Vec<
    String,
>)
    ensures
        kept.deep_view() == files.deep_view().filter(
            |path: Seq<char>| is_kept(path, excluded_files.deep_view()),
        ),
{
    let ghost paths = files.deep_view();
    let ghost excluded = excluded_files.deep_view();
    let ghost keep = |path: Seq<char>| is_kept(path, excluded);
    let mut kept: Vec<String> = Vec::new();
    proof {
        assert(paths.take(0) =~= Seq::empty());
        assert(paths.take(0).filter(keep) =~= Seq::empty()) by {
            paths.take(0).lemma_filter_len(keep);
        }
        assert(kept.deep_view() =~= Seq::empty());
    }
    for i in 0..files.len()
        invariant
            paths == files.deep_view(),
            excluded == excluded_files.deep_view(),
            keep == |path: Seq<char>| is_kept(path, excluded),
            kept.deep_view() == paths.take(i as int).filter(keep),
    {
        let path = files[i].as_str();
        let ghost earlier = kept.deep_view();
        proof {
            assert(paths[i as int] == path@);
            assert(paths.take(i + 1) =~= paths.take(i as int).push(path@));
            paths.take(i as int).lemma_filter_push(path@, keep);
        }
        let chars = chars_of(path);
        let n = chars.len();
        let start = find_file_name_start(&chars);
        let named = names_a_file(&chars, start);
        if named && !is_excluded(path.substring_char(start, n), excluded_files) {
            kept.push(String::from_str(path));
            assert(kept.deep_view() =~= earlier.push(path@));
        }
    }
    proof {
        assert(paths.take(files.len() as int) =~= paths);
    }
    kept
}

/// Keeps the files of `all_files` that are sidecars: those whose path ends
/// in `.json`, in any mix of upper and lower case.  The order is kept.
pub fn get_all_json_files(all_files: Vec<String>) -> (sidecars: Vec<String>)
    ensures
        sidecars.deep_view() == all_files.deep_view().filter(
            |path: Seq<char>| has_json_suffix(path),
        ),
{
    let ghost paths = all_files.deep_view();
    let ghost keep = |path: Seq<char>| has_json_suffix(path);
    let mut sidecars: Vec<String> = Vec::new();
    proof {
        assert(paths.take(0) =~= Seq::empty());
        assert(paths.take(0).filter(keep) =~= Seq::empty()) by {
            paths.take(0).lemma_filter_len(keep);
        }
        assert(sidecars.deep_view() =~= Seq::empty());
    }
    for i in 0..all_files.len()
        invariant
            paths == all_files.deep_view(),
            keep == |path: Seq<char>| has_json_suffix(path),
            sidecars.deep_view() == paths.take(i as int).filter(keep),
    {
        let path = all_files[i].as_str();
        let ghost earlier = sidecars.deep_view();
        proof {
            assert(paths[i as int] == path@);
            assert(paths.take(i + 1) =~= paths.take(i as int).push(path@));
            paths.take(i as int).lemma_filter_push(path@, keep);
        }
        let chars = chars_of(path);
        if ends_in_json(&chars) {
            sidecars.push(String::from_str(path));
            assert(sidecars.deep_view() =~= earlier.push(path@));
        }
    }
    proof {
        assert(paths.take(all_files.len() as int) =~= paths);
    }
    sidecars
}

/// The names of the files of an export that look like sidecars and
/// describe no media file.
pub fn excluded_sidecar_names() -> (names: Vec<String>)
    ensures
        names.deep_view() == administrative_names(),
{
    let mut names: Vec<String> = Vec::new();
    names.push(String::from_str("print-subscriptions.json"));
    names.push(String::from_str("shared_album_comments.json"));
    names.push(String::from_str("user-generated-memory-titles.json"));
    assert(names.deep_view() =~= administrative_names());
    names
}

} // verus!
