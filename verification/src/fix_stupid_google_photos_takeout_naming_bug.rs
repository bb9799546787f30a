//! Reconciling sidecar names with media names.
//!
//! An export may name the sidecar of `IMG(2).HEIC` as `IMG.HEIC(2).json`:
//! the duplicate counter and the extension have changed places.  This
//! module restores the order and removes the `.json` suffix, in two stages
//! that can be used on their own.  It also derives the second candidate of
//! a sidecar, the one whose counter has lost a trailing zero.

use crate::file_utils::{
    file_name_of, file_prefix_of, join_path, join_path_text, parent_of, split_path_components,
};
use crate::text::{
    chars_of, find_first, find_last, is_decimal_digit, is_digit, lemma_last_position,
};
use vstd::prelude::*;
use vstd::string::*;

verus! {

/// The suffix `.json`.
pub open spec fn json_suffix() -> Seq<char> {
    seq!['.', 'j', 's', 'o', 'n']
}

/// Whether every character of `text` is an ASCII decimal digit.
pub open spec fn all_digits(text: Seq<char>) -> bool {
    forall|i: int| 0 <= i < text.len() ==> is_decimal_digit(#[trigger] text[i])
}

/// The sidecar name `<stem>.<extension>(<digits>).json`.
pub open spec fn counter_name(stem: Seq<char>, extension: Seq<char>, digits: Seq<char>) -> Seq<
    char,
> {
    stem + seq!['.'] + extension + seq!['('] + digits + seq![')'] + json_suffix()
}

/// The name `<stem>(<digits>).<extension>.json`: `counter_name` with the
/// counter and the extension in their true order.
pub open spec fn swapped_name(stem: Seq<char>, extension: Seq<char>, digits: Seq<char>) -> Seq<
    char,
> {
    stem + seq!['('] + digits + seq![')', '.'] + extension + json_suffix()
}

/// `name` is `<stem>.<extension>(<digits>).json` with a stem and an
/// extension that are not empty, an extension without a dot, and one or
/// more decimal digits.
pub open spec fn is_counter_split(
    name: Seq<char>,
    stem: Seq<char>,
    extension: Seq<char>,
    digits: Seq<char>,
) -> bool {
    &&& stem.len() > 0
    &&& extension.len() > 0
    &&& !extension.contains('.')
    &&& digits.len() > 0
    &&& all_digits(digits)
    &&& name == counter_name(stem, extension, digits)
}

/// Whether `name` can be read as `<stem>.<extension>(<digits>).json`.
pub open spec fn has_counter_shape(name: Seq<char>) -> bool {
    exists|stem: Seq<char>, extension: Seq<char>, digits: Seq<char>|
        is_counter_split(name, stem, extension, digits)
}

/// First stage: a name of the shape `<stem>.<extension>(<digits>).json`
/// becomes `<stem>(<digits>).<extension>.json`; any other name is kept.
pub open spec fn swap_name(name: Seq<char>) -> Seq<char> {
    if has_counter_shape(name) {
        let (stem, extension, digits) = choose|
            stem: Seq<char>,
            extension: Seq<char>,
            digits: Seq<char>,
        |
            is_counter_split(name, stem, extension, digits);
        swapped_name(stem, extension, digits)
    } else {
        name
    }
}

/// Whether `tail` is `.json` in any mix of upper and lower case.
pub open spec fn is_json_suffix(tail: Seq<char>) -> bool {
    &&& tail.len() == 5
    &&& tail[0] == '.'
    &&& (tail[1] == 'j' || tail[1] == 'J')
    &&& (tail[2] == 's' || tail[2] == 'S')
    &&& (tail[3] == 'o' || tail[3] == 'O')
    &&& (tail[4] == 'n' || tail[4] == 'N')
}

/// Whether `text` ends in `.json`, in any mix of upper and lower case.
/// This is what marks a name as the name of a sidecar.
pub open spec fn has_json_suffix(text: Seq<char>) -> bool {
    text.len() >= 5 && is_json_suffix(text.subrange(text.len() - 5, text.len() as int))
}

/// Second stage: `text` without its `.json` suffix; unchanged when it has
/// none.
pub open spec fn without_json_suffix(text: Seq<char>) -> Seq<char> {
    if has_json_suffix(text) {
        text.subrange(0, text.len() - 5)
    } else {
        text
    }
}

/// Both stages, applied to a file name.
pub open spec fn reconcile_name(name: Seq<char>) -> Seq<char> {
    without_json_suffix(swap_name(name))
}

/// The path of a sidecar with the first stage applied to its file name.
pub open spec fn swapped_path(path: Seq<char>) -> Seq<char> {
    join_path(parent_of(path), swap_name(file_name_of(path)))
}

/// The first candidate for the media file of the sidecar at `path`: both
/// stages applied, in the directory of the sidecar.
pub open spec fn swap_candidate(path: Seq<char>) -> Seq<char> {
    without_json_suffix(swapped_path(path))
}

/// The second candidate for the media file of the sidecar at `path`: the
/// part of the file name before its first dot, followed by `0.png`, in the
/// directory of the sidecar.
pub open spec fn trailing_zero_candidate(path: Seq<char>) -> Seq<char> {
    join_path(
        parent_of(path),
        file_prefix_of(file_name_of(path)) + seq!['0', '.', 'p', 'n', 'g'],
    )
}

/// The same shape, told by two indices: `dot` is where the dot before the
/// extension stands and `open` where the opening bracket stands.  The
/// closing bracket is the sixth character from the end.
pub open spec fn is_counter_cut(name: Seq<char>, dot: int, open: int) -> bool {
    let close = name.len() - 6;
    &&& 0 < dot
    &&& dot + 1 < open
    &&& open + 1 < close
    &&& name[dot] == '.'
    &&& forall|i: int| dot < i < open ==> name[i] != '.'
    &&& name[open] == '('
    &&& forall|i: int| open < i < close ==> is_decimal_digit(name[i])
    &&& name[close] == ')'
    &&& name.subrange(close + 1, name.len() as int) == json_suffix()
}

/// A split of `name` fixes the two indices of a cut, and its three parts
/// are the ranges of `name` between them.
pub proof fn lemma_split_gives_cut(
    name: Seq<char>,
    stem: Seq<char>,
    extension: Seq<char>,
    digits: Seq<char>,
)
    requires
        is_counter_split(name, stem, extension, digits),
    ensures
        is_counter_cut(name, stem.len() as int, (stem.len() + 1 + extension.len()) as int),
        stem == name.subrange(0, stem.len() as int),
        extension == name.subrange(
            (stem.len() + 1) as int,
            (stem.len() + 1 + extension.len()) as int,
        ),
        digits == name.subrange((stem.len() + 2 + extension.len()) as int, name.len() - 6),
        name.len() == stem.len() + extension.len() + digits.len() + 8,
{
    let dot = stem.len() as int;
    let open = dot + 1 + extension.len();
    let close = open + 1 + digits.len();
    assert(name.len() == close + 6);
    assert(name[dot] == '.');
    assert(name[open] == '(');
    assert(name[close] == ')');
    assert forall|i: int| dot < i < open implies name[i] != '.' by {
        assert(name[i] == extension[i - dot - 1]);
        assert(extension.contains(extension[i - dot - 1]));
    }
    assert forall|i: int| open < i < close implies is_decimal_digit(name[i]) by {
        assert(name[i] == digits[i - open - 1]);
    }
    assert(name.subrange(close + 1, name.len() as int) =~= json_suffix());
    assert(stem =~= name.subrange(0, dot));
    assert(extension =~= name.subrange(dot + 1, open));
    assert(digits =~= name.subrange(open + 1, close));
}

/// The ranges of `name` between the indices of a cut form a split.
pub proof fn lemma_cut_gives_split(name: Seq<char>, dot: int, open: int)
    requires
        is_counter_cut(name, dot, open),
    ensures
        is_counter_split(
            name,
            name.subrange(0, dot),
            name.subrange(dot + 1, open),
            name.subrange(open + 1, name.len() - 6),
        ),
{
    let close = name.len() - 6;
    let stem = name.subrange(0, dot);
    let extension = name.subrange(dot + 1, open);
    let digits = name.subrange(open + 1, close);
    assert(!extension.contains('.')) by {
        if extension.contains('.') {
            let k = choose|k: int| 0 <= k < extension.len() && extension[k] == '.';
            assert(name[dot + 1 + k] == '.');
        }
    }
    assert(all_digits(digits)) by {
        assert forall|i: int| 0 <= i < digits.len() implies is_decimal_digit(
            #[trigger] digits[i],
        ) by {
            assert(digits[i] == name[open + 1 + i]);
        }
    }
    let tail = name.subrange(close + 1, name.len() as int);
    assert(name =~= counter_name(stem, extension, digits)) by {
        let built = counter_name(stem, extension, digits);
        assert(built.len() == name.len());
        assert forall|i: int| 0 <= i < name.len() implies name[i] == built[i] by {
            if i > close {
                assert(tail[i - close - 1] == name[i]);
                assert(json_suffix()[i - close - 1] == built[i]);
            }
        }
    }
}

/// A name has at most one cut.
pub proof fn lemma_cut_unique(name: Seq<char>, dot: int, open: int, other_dot: int, other_open: int)
    requires
        is_counter_cut(name, dot, open),
        is_counter_cut(name, other_dot, other_open),
    ensures
        dot == other_dot,
        open == other_open,
{
    let close = name.len() - 6;
    if open < other_open {
        assert(is_decimal_digit(name[other_open]));
    }
    if other_open < open {
        assert(is_decimal_digit(name[open]));
    }
    if dot < other_dot {
        assert(name[other_dot] != '.');
    }
    if other_dot < dot {
        assert(name[dot] != '.');
    }
}

/// A name has at most one split: the stem, the extension and the digits
/// are determined by the name.
pub proof fn lemma_split_unique(
    name: Seq<char>,
    stem: Seq<char>,
    extension: Seq<char>,
    digits: Seq<char>,
    other_stem: Seq<char>,
    other_extension: Seq<char>,
    other_digits: Seq<char>,
)
    requires
        is_counter_split(name, stem, extension, digits),
        is_counter_split(name, other_stem, other_extension, other_digits),
    ensures
        stem == other_stem,
        extension == other_extension,
        digits == other_digits,
{
    lemma_split_gives_cut(name, stem, extension, digits);
    lemma_split_gives_cut(name, other_stem, other_extension, other_digits);
    lemma_cut_unique(
        name,
        stem.len() as int,
        (stem.len() + 1 + extension.len()) as int,
        other_stem.len() as int,
        (other_stem.len() + 1 + other_extension.len()) as int,
    );
}

/// The first stage on a name with a split gives the swapped name of that
/// split.
pub proof fn lemma_swap_name_of_split(
    name: Seq<char>,
    stem: Seq<char>,
    extension: Seq<char>,
    digits: Seq<char>,
)
    requires
        is_counter_split(name, stem, extension, digits),
    ensures
        swap_name(name) == swapped_name(stem, extension, digits),
{
    let (s, e, d) = choose|s: Seq<char>, e: Seq<char>, d: Seq<char>|
        is_counter_split(name, s, e, d);
    lemma_split_unique(name, stem, extension, digits, s, e, d);
}

/// The name `<head>(<digits>).json`.
pub open spec fn counter_suffixed(head: Seq<char>, digits: Seq<char>) -> Seq<char> {
    head + seq!['('] + digits + seq![')'] + json_suffix()
}

/// Whether `name` ends in `(<digits>).json` with one or more decimal
/// digits.
pub open spec fn has_counter_suffix(name: Seq<char>) -> bool {
    exists|head: Seq<char>, digits: Seq<char>|
        digits.len() > 0 && all_digits(digits) && name == counter_suffixed(head, digits)
}

/// Every sidecar name `<stem>.<extension>(<digits>).json`, with an
/// extension free of dots and decimal digits, is reconciled to
/// `<stem>(<digits>).<extension>`: the stem, the digits and the extension
/// are kept character for character, in whatever case they were written.
pub proof fn lemma_counter_name_is_reconciled(
    stem: Seq<char>,
    extension: Seq<char>,
    digits: Seq<char>,
)
    requires
        stem.len() > 0,
        extension.len() > 0,
        !extension.contains('.'),
        digits.len() > 0,
        all_digits(digits),
    ensures
        swap_name(counter_name(stem, extension, digits)) == swapped_name(stem, extension, digits),
        reconcile_name(counter_name(stem, extension, digits)) == stem + seq!['('] + digits + seq![
            ')',
            '.',
        ] + extension,
{
    let name = counter_name(stem, extension, digits);
    lemma_swap_name_of_split(name, stem, extension, digits);
    let swapped = swapped_name(stem, extension, digits);
    let media = stem + seq!['('] + digits + seq![')', '.'] + extension;
    assert(swapped == media + json_suffix());
    lemma_suffix_removed(media);
}

/// Removing the suffix from `base` followed by `.json` gives `base`.
pub proof fn lemma_suffix_removed(base: Seq<char>)
    ensures
        has_json_suffix(base + json_suffix()),
        without_json_suffix(base + json_suffix()) == base,
{
    let text = base + json_suffix();
    assert(text.subrange(text.len() - 5, text.len() as int) =~= json_suffix());
    assert(text.subrange(0, text.len() - 5) =~= base);
}

/// A sidecar name `<base>.json` that does not have the shape
/// `<stem>.<extension>(<digits>).json` is reconciled to `<base>`: the
/// suffix is removed and nothing else changes.
pub proof fn lemma_plain_name_loses_suffix(base: Seq<char>)
    requires
        !has_counter_shape(base + json_suffix()),
    ensures
        reconcile_name(base + json_suffix()) == base,
{
    lemma_suffix_removed(base);
}

/// On a name that does not end in `(<digits>).json` the first stage
/// changes nothing, so the reconciliation only removes the suffix, once.
/// This holds in particular of a name that is already in its true order.
pub proof fn lemma_no_counter_suffix_only_strips(name: Seq<char>)
    requires
        !has_counter_suffix(name),
    ensures
        swap_name(name) == name,
        reconcile_name(name) == without_json_suffix(name),
{
    if has_counter_shape(name) {
        let (stem, extension, digits) = choose|
            stem: Seq<char>,
            extension: Seq<char>,
            digits: Seq<char>,
        |
            is_counter_split(name, stem, extension, digits);
        let head = stem + seq!['.'] + extension;
        assert(name == counter_suffixed(head, digits));
    }
}

/// The first stage is idempotent on a name that it has swapped, unless
/// the swapped name itself ends in `(<digits>).json`, which it does only
/// when the extension ends in a counter of its own.  A second pass over
/// the reconciled sidecar name then removes the suffix and nothing else.
pub proof fn lemma_swap_is_idempotent(stem: Seq<char>, extension: Seq<char>, digits: Seq<char>)
    requires
        stem.len() > 0,
        extension.len() > 0,
        !extension.contains('.'),
        digits.len() > 0,
        all_digits(digits),
        !has_counter_suffix(swapped_name(stem, extension, digits)),
    ensures
        swap_name(swap_name(counter_name(stem, extension, digits))) == swap_name(
            counter_name(stem, extension, digits),
        ),
        reconcile_name(swap_name(counter_name(stem, extension, digits))) == reconcile_name(
            counter_name(stem, extension, digits),
        ),
{
    lemma_counter_name_is_reconciled(stem, extension, digits);
    lemma_no_counter_suffix_only_strips(swapped_name(stem, extension, digits));
}

/// The first candidate lies in the directory of the sidecar: it is the
/// reconciled file name joined to the directory of the path.
pub proof fn lemma_candidate_keeps_directory(path: Seq<char>)
    ensures
        swap_candidate(path) == join_path(parent_of(path), reconcile_name(file_name_of(path))),
{
    let parent = parent_of(path);
    let name = swap_name(file_name_of(path));
    let joined = join_path(parent, name);
    let cut = joined.len() - name.len();
    assert(joined.subrange(cut, joined.len() as int) =~= name);
    if name.len() >= 5 {
        assert(joined.subrange(joined.len() - 5, joined.len() as int) =~= name.subrange(
            name.len() - 5,
            name.len() as int,
        ));
        if has_json_suffix(name) {
            let short = name.subrange(0, name.len() - 5);
            assert(joined.subrange(0, joined.len() - 5) =~= join_path(parent, short));
        }
    } else if parent.len() > 0 && joined.len() >= 5 {
        let tail = joined.subrange(joined.len() - 5, joined.len() as int);
        assert(joined[cut - 1] == '/');
        assert(tail[5 - name.len() - 1] == joined[cut - 1]);
    }
}

/// Looks for the cut of `chars`: the indices of the dot before the
/// extension and of the opening bracket.
pub(crate) fn find_counter_cut(chars: &Vec<char>) -> (cut: Option<(usize, usize)>)
    ensures
        match cut {
            Some((dot, open)) => is_counter_cut(chars@, dot as int, open as int),
            None => !has_counter_shape(chars@),
        },
{
    let ghost name = chars@;
    let n = chars.len();
    proof {
        // Whatever split the name has, it shows as a cut.
        assert(has_counter_shape(name) ==> exists|d: int, o: int| is_counter_cut(name, d, o)) by {
            if has_counter_shape(name) {
                let (s, e, g) = choose|s: Seq<char>, e: Seq<char>, g: Seq<char>|
                    is_counter_split(name, s, e, g);
                lemma_split_gives_cut(name, s, e, g);
                assert(is_counter_cut(name, s.len() as int, (s.len() + 1 + e.len()) as int));
            }
        }
    }
    if n < 11 {
        return None;
    }
    let close: usize = n - 6;
    if !(chars[close] == ')' && chars[n - 5] == '.' && chars[n - 4] == 'j' && chars[n - 3] == 's'
        && chars[n - 2] == 'o' && chars[n - 1] == 'n') {
        proof {
            if has_counter_shape(name) {
                let (d, o) = choose|d: int, o: int| is_counter_cut(name, d, o);
                let tail = name.subrange(close + 1, n as int);
                assert(tail[0] == name[n - 5] && tail[1] == name[n - 4] && tail[2] == name[n - 3]
                    && tail[3] == name[n - 2] && tail[4] == name[n - 1]);
            }
        }
        return None;
    }
    let mut first_digit: usize = close;
    while first_digit > 0 && is_digit(chars[first_digit - 1])
        invariant
            first_digit <= close < chars.len(),
            forall|i: int| first_digit <= i < close ==> is_decimal_digit(chars@[i]),
        decreases first_digit,
    {
        first_digit = first_digit - 1;
    }
    if first_digit == 0 {
        proof {
            if has_counter_shape(name) {
                let (d, o) = choose|d: int, o: int| is_counter_cut(name, d, o);
                assert(is_decimal_digit(name[o]));
            }
        }
        return None;
    }
    let open: usize = first_digit - 1;
    proof {
        // The opening bracket of any cut stands at `open`.
        if has_counter_shape(name) {
            let (d, o) = choose|d: int, o: int| is_counter_cut(name, d, o);
            if o > open {
                assert(is_decimal_digit(name[o]));
            }
            if o < open {
                assert(is_decimal_digit(name[open as int]));
            }
            assert(o == open);
        }
    }
    if chars[open] != '(' || first_digit == close {
        return None;
    }
    let found = find_last(chars, 0, open, '.');
    proof {
        lemma_last_position(name.subrange(0, open as int), '.');
        assert(forall|i: int| 0 <= i < open ==> name.subrange(0, open as int)[i] == name[i]);
        // The dot of any cut is the last dot before `open`.
        if has_counter_shape(name) {
            let (d, o) = choose|d: int, o: int| is_counter_cut(name, d, o);
            assert(name.subrange(0, open as int)[d] == '.');
            match found {
                Some(dot) => {
                    if d < dot {
                        assert(name[dot as int] != '.');
                    }
                    if dot < d {
                        assert(name.subrange(0, open as int)[d] != '.');
                    }
                    assert(d == dot);
                },
                None => {},
            }
        }
    }
    match found {
        Some(dot) => {
            if dot == 0 || dot + 1 == open {
                return None;
            }
            proof {
                assert forall|i: int| dot < i < open implies name[i] != '.' by {
                    assert(name.subrange(0, open as int)[i] != '.');
                }
                assert(name.subrange(close + 1, n as int) =~= json_suffix());
            }
            Some((dot, open))
        },
        None => None,
    }
}

/// First stage of the reconciliation: puts the counter and the extension
/// of `file_name` in their true order.
///
/// A name `<stem>.<extension>(<digits>).json` becomes
/// `<stem>(<digits>).<extension>.json`, character for character; every
/// other name is returned as it is.
pub fn swap_file_name_str_position(file_name: &str) -> (swapped: String)
    ensures
        swapped@ == swap_name(file_name@),
{
    let chars = chars_of(file_name);
    let n = chars.len();
    match find_counter_cut(&chars) {
        Some((dot, open)) => {
            let close: usize = n - 6;
            let ghost stem = file_name@.subrange(0, dot as int);
            let ghost extension = file_name@.subrange(dot + 1, open as int);
            let ghost digits = file_name@.subrange(open + 1, close as int);
            proof {
                lemma_cut_gives_split(file_name@, dot as int, open as int);
                lemma_swap_name_of_split(file_name@, stem, extension, digits);
                reveal_strlit("(");
                reveal_strlit(").");
                reveal_strlit(".json");
                assert("("@ =~= seq!['(']);
                assert(")."@ =~= seq![')', '.']);
                assert(".json"@ =~= json_suffix());
            }
            let mut swapped = String::from_str(file_name.substring_char(0, dot));
            swapped.append("(");
            swapped.append(file_name.substring_char(open + 1, close));
            swapped.append(").");
            swapped.append(file_name.substring_char(dot + 1, open));
            swapped.append(".json");
            swapped
        },
        None => String::from_str(file_name),
    }
}

/// Tests whether `chars` ends in `.json`, in any mix of upper and lower
/// case.
pub(crate) fn ends_in_json(chars: &Vec<char>) -> (result: bool)
    ensures
        result == has_json_suffix(chars@),
{
    let n = chars.len();
    if n < 5 {
        return false;
    }
    let ghost tail = chars@.subrange(n - 5, n as int);
    proof {
        assert(tail[0] == chars@[n - 5] && tail[1] == chars@[n - 4] && tail[2] == chars@[n - 3]
            && tail[3] == chars@[n - 2] && tail[4] == chars@[n - 1]);
    }
    chars[n - 5] == '.' && (chars[n - 4] == 'j' || chars[n - 4] == 'J') && (chars[n - 3] == 's'
        || chars[n - 3] == 'S') && (chars[n - 2] == 'o' || chars[n - 2] == 'O') && (chars[n - 1]
        == 'n' || chars[n - 1] == 'N')
}

/// Second stage of the reconciliation: removes the `.json` suffix of
/// `json_file_path`, whatever its case.  A path without that suffix is
/// returned as it is.
pub fn strip_json_suffix(json_file_path: &str) -> (stripped: String)
    ensures
        stripped@ == without_json_suffix(json_file_path@),
{
    let chars = chars_of(json_file_path);
    if ends_in_json(&chars) {
        String::from_str(json_file_path.substring_char(0, chars.len() - 5))
    } else {
        String::from_str(json_file_path)
    }
}

/// The path of the sidecar `json_file_path` with the first stage applied
/// to its file name.  The directory is kept.  The result is always `Some`.
pub fn swap_position(json_file_path: &str) -> (swapped: Option<String>)
    ensures
        swapped matches Some(path) && path@ == swapped_path(json_file_path@),
{
    let components = split_path_components(json_file_path);
    let new_file_name = swap_file_name_str_position(components.file_name.as_str());
    Some(join_path_text(components.parent_path.as_str(), new_file_name.as_str()))
}

/// The first candidate for the media file that the sidecar
/// `json_file_path` describes: both stages of the reconciliation, in the
/// directory of the sidecar.
pub fn get_new_image_file_path_by_swap_position(json_file_path: &str) -> (candidate: String)
    ensures
        candidate@ == swap_candidate(json_file_path@),
{
    let swapped = match swap_position(json_file_path) {
        Some(path) => path,
        None => String::from_str(json_file_path),
    };
    strip_json_suffix(swapped.as_str())
}

/// The second candidate for the media file that the sidecar
/// `json_file_path` describes: the part of its file name before the first
/// dot, followed by `0.png`, in the directory of the sidecar.
pub fn fix_image_file_path_by_fix_0(json_file_path: &str) -> (candidate: String)
    ensures
        candidate@ == trailing_zero_candidate(json_file_path@),
{
    let components = split_path_components(json_file_path);
    let name = components.file_name.as_str();
    let chars = chars_of(name);
    let n = chars.len();
    let prefix_end: usize = if n == 0 {
        0
    } else {
        match find_first(&chars, 1, n, '.') {
            Some(i) => i,
            None => n,
        }
    };
    proof {
        assert(name@.subrange(0, n as int) =~= name@);
        assert(name@.subrange(0, prefix_end as int) == file_prefix_of(name@));
        reveal_strlit("0.png");
        assert("0.png"@ =~= seq!['0', '.', 'p', 'n', 'g']);
    }
    let mut new_file_name = String::from_str(name.substring_char(0, prefix_end));
    new_file_name.append("0.png");
    join_path_text(components.parent_path.as_str(), new_file_name.as_str())
}

} // verus!
