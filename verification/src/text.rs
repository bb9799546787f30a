//! Character-level primitives shared by the rest of the library.
//!
//! Text is modelled as `Seq<char>`, the view of `str` and `String`.  The
//! executable helpers scan a `Vec<char>` that is made once from the input.

use vstd::prelude::*;
use vstd::string::*;

verus! {

/// Whether `c` is one of the ten ASCII decimal digits.
pub open spec fn is_decimal_digit(c: char) -> bool {
    '0' <= c && c <= '9'
}

/// Whether `c` is white space, as `char::is_whitespace` of the standard
/// library tells it: a character with the Unicode property `White_Space`.
pub uninterp spec fn is_white_space(c: char) -> bool;

/// `char::is_whitespace` of the standard library.  The contract only
/// names the result.
pub assume_specification[ char::is_whitespace ](c: char) -> (white: bool)
    ensures
        white == is_white_space(c),
;

/// `text` without the white space at its start.
pub open spec fn trim_start_of(text: Seq<char>) -> Seq<char>
    decreases text.len(),
{
    if text.len() > 0 && is_white_space(text.first()) {
        trim_start_of(text.drop_first())
    } else {
        text
    }
}

/// `text` without the white space at its end.
pub open spec fn trim_end_of(text: Seq<char>) -> Seq<char>
    decreases text.len(),
{
    if text.len() > 0 && is_white_space(text.last()) {
        trim_end_of(text.drop_last())
    } else {
        text
    }
}

/// `text` without the white space at its two ends.
pub open spec fn trimmed(text: Seq<char>) -> Seq<char> {
    trim_end_of(trim_start_of(text))
}

/// Index of the last occurrence of `target` in `text`, if there is one.
pub open spec fn last_position(text: Seq<char>, target: char) -> Option<int>
    decreases text.len(),
{
    if text.len() == 0 {
        None
    } else if text.last() == target {
        Some(text.len() - 1)
    } else {
        last_position(text.drop_last(), target)
    }
}

/// Index of the first occurrence of `target` in `text`, if there is one.
pub open spec fn first_position(text: Seq<char>, target: char) -> Option<int>
    decreases text.len(),
{
    if text.len() == 0 {
        None
    } else if text.first() == target {
        Some(0)
    } else {
        match first_position(text.drop_first(), target) {
            Some(i) => Some(i + 1),
            None => None,
        }
    }
}

/// `text` holds `needle` as a contiguous run that starts at index `at`.
pub open spec fn occurs_at(text: Seq<char>, needle: Seq<char>, at: int) -> bool {
    &&& 0 <= at
    &&& at + needle.len() <= text.len()
    &&& text.subrange(at, at + needle.len()) == needle
}

/// `text` holds `needle` as a contiguous run somewhere.  The empty needle
/// occurs in every text.
pub open spec fn contains_text(text: Seq<char>, needle: Seq<char>) -> bool {
    exists|at: int| occurs_at(text, needle, at)
}

/// `last_position` returns the greatest index that holds `target`, and
/// `None` exactly when no index does.
pub proof fn lemma_last_position(text: Seq<char>, target: char)
    ensures
        match last_position(text, target) {
            Some(i) => {
                &&& 0 <= i < text.len()
                &&& text[i] == target
                &&& forall|j: int| i < j < text.len() ==> text[j] != target
            },
            None => forall|j: int| 0 <= j < text.len() ==> text[j] != target,
        },
    decreases text.len(),
{
    if text.len() > 0 && text.last() != target {
        let rest = text.drop_last();
        lemma_last_position(rest, target);
        assert(forall|j: int| 0 <= j < rest.len() ==> rest[j] == text[j]);
    }
}

/// An index that holds `target` with no later occurrence is the last position.
pub proof fn lemma_last_position_is(text: Seq<char>, target: char, i: int)
    requires
        0 <= i < text.len(),
        text[i] == target,
        forall|j: int| i < j < text.len() ==> text[j] != target,
    ensures
        last_position(text, target) == Some(i),
{
    lemma_last_position(text, target);
}

/// A text without `target` has no last position.
pub proof fn lemma_last_position_none(text: Seq<char>, target: char)
    requires
        forall|j: int| 0 <= j < text.len() ==> text[j] != target,
    ensures
        last_position(text, target) is None,
{
    lemma_last_position(text, target);
}

/// `first_position` returns the least index that holds `target`, and `None`
/// exactly when no index does.
pub proof fn lemma_first_position(text: Seq<char>, target: char)
    ensures
        match first_position(text, target) {
            Some(i) => {
                &&& 0 <= i < text.len()
                &&& text[i] == target
                &&& forall|j: int| 0 <= j < i ==> text[j] != target
            },
            None => forall|j: int| 0 <= j < text.len() ==> text[j] != target,
        },
    decreases text.len(),
{
    if text.len() > 0 && text.first() != target {
        let rest = text.drop_first();
        lemma_first_position(rest, target);
        assert(forall|j: int| 0 <= j < rest.len() ==> rest[j] == text[j + 1]);
        match first_position(rest, target) {
            Some(i) => {
                assert forall|j: int| 0 <= j < i + 1 implies text[j] != target by {
                    if j > 0 {
                        assert(rest[j - 1] == text[j]);
                    }
                }
            },
            None => {
                assert forall|j: int| 0 <= j < text.len() implies text[j] != target by {
                    if j > 0 {
                        assert(rest[j - 1] == text[j]);
                    }
                }
            },
        }
    }
}

/// An index that holds `target` with no earlier occurrence is the first position.
pub proof fn lemma_first_position_is(text: Seq<char>, target: char, i: int)
    requires
        0 <= i < text.len(),
        text[i] == target,
        forall|j: int| 0 <= j < i ==> text[j] != target,
    ensures
        first_position(text, target) == Some(i),
{
    lemma_first_position(text, target);
}

/// A text without `target` has no first position.
pub proof fn lemma_first_position_none(text: Seq<char>, target: char)
    requires
        forall|j: int| 0 <= j < text.len() ==> text[j] != target,
    ensures
        first_position(text, target) is None,
{
    lemma_first_position(text, target);
}

/// The characters of `text`, in order.
pub(crate) fn chars_of(text: &str) -> (chars: Vec<char>)
    ensures
        chars@ == text@,
{
    let mut chars: Vec<char> = Vec::new();
    for c in it: text.chars()
        invariant
            chars@ == it.seq().take(it.index() as int),
            it.seq() == text@,
    {
        chars.push(c);
    }
    chars
}

/// Tests whether `c` is an ASCII decimal digit.
pub(crate) fn is_digit(c: char) -> (result: bool)
    ensures
        result == is_decimal_digit(c),
{
    '0' <= c && c <= '9'
}

/// Finds the last occurrence of `target` among `chars[from..to]`.  The index
/// returned is an index into `chars`.
pub(crate) fn find_last(chars: &Vec<char>, from: usize, to: usize, target: char) -> (found: Option<usize>)
    requires
        from <= to <= chars.len(),
    ensures
        match found {
            Some(i) => from <= i < to && last_position(
                chars@.subrange(from as int, to as int),
                target,
            ) == Some(i - from),
            None => last_position(chars@.subrange(from as int, to as int), target) is None,
        },
{
    let ghost window = chars@.subrange(from as int, to as int);
    let mut i: usize = to;
    while i > from
        invariant
            from <= i <= to <= chars.len(),
            window == chars@.subrange(from as int, to as int),
            forall|j: int| i - from <= j < window.len() ==> window[j] != target,
        decreases i,
    {
        i = i - 1;
        if chars[i] == target {
            proof {
                assert(window[i - from] == chars@[i as int]);
                lemma_last_position_is(window, target, i - from);
            }
            return Some(i);
        }
        assert(window[i - from] == chars@[i as int]);
    }
    proof {
        lemma_last_position_none(window, target);
    }
    None
}

/// Finds the first occurrence of `target` among `chars[from..to]`.  The index
/// returned is an index into `chars`.
pub(crate) fn find_first(chars: &Vec<char>, from: usize, to: usize, target: char) -> (found: Option<usize>)
    requires
        from <= to <= chars.len(),
    ensures
        match found {
            Some(i) => from <= i < to && first_position(
                chars@.subrange(from as int, to as int),
                target,
            ) == Some(i - from),
            None => first_position(chars@.subrange(from as int, to as int), target) is None,
        },
{
    let ghost window = chars@.subrange(from as int, to as int);
    let mut i: usize = from;
    while i < to
        invariant
            from <= i <= to <= chars.len(),
            window == chars@.subrange(from as int, to as int),
            forall|j: int| 0 <= j < i - from ==> window[j] != target,
        decreases to - i,
    {
        if chars[i] == target {
            proof {
                assert(window[i - from] == chars@[i as int]);
                lemma_first_position_is(window, target, i - from);
            }
            return Some(i);
        }
        assert(window[i - from] == chars@[i as int]);
        i = i + 1;
    }
    proof {
        lemma_first_position_none(window, target);
    }
    None
}

/// Tests whether `needle` starts at index `at` of `chars`.
pub(crate) fn matches_at(chars: &Vec<char>, needle: &Vec<char>, at: usize) -> (result: bool)
    requires
        at + needle.len() <= chars.len(),
    ensures
        result == occurs_at(chars@, needle@, at as int),
{
    let ghost window = chars@.subrange(at as int, at + needle.len());
    let mut k: usize = 0;
    while k < needle.len()
        invariant
            k <= needle.len(),
            at + needle.len() <= chars.len(),
            window == chars@.subrange(at as int, at + needle.len()),
            forall|j: int| 0 <= j < k ==> window[j] == needle@[j],
        decreases needle.len() - k,
    {
        if chars[at + k] != needle[k] {
            assert(window[k as int] == chars@[at + k]);
            return false;
        }
        assert(window[k as int] == chars@[at + k]);
        k = k + 1;
    }
    assert(window =~= needle@);
    true
}

/// Tests whether `needle` occurs in `text` as a contiguous run.
pub fn contains(text: &str, needle: &str) -> (result: bool)
    ensures
        result == contains_text(text@, needle@),
{
    let chars = chars_of(text);
    let wanted = chars_of(needle);
    if wanted.len() > chars.len() {
        return false;
    }
    let last_start: usize = chars.len() - wanted.len();
    let mut at: usize = 0;
    loop
        invariant
            at <= last_start,
            last_start == chars.len() - wanted.len(),
            chars@ == text@,
            wanted@ == needle@,
            forall|k: int| 0 <= k < at ==> !occurs_at(chars@, wanted@, k),
        decreases last_start - at,
    {
        if matches_at(&chars, &wanted, at) {
            return true;
        }
        if at == last_start {
            return false;
        }
        at = at + 1;
    }
}

/// Tests whether two texts hold the same characters.
pub fn same_text(left: &str, right: &str) -> (result: bool)
    ensures
        result == (left@ == right@),
{
    let a = chars_of(left);
    let b = chars_of(right);
    if a.len() != b.len() {
        return false;
    }
    let same = matches_at(&a, &b, 0);
    proof {
        assert(a@.subrange(0, a@.len() as int) =~= a@);
    }
    same
}

/// The part of `text` between the white space at its two ends.
pub fn trim(text: &str) -> (inner: &str)
    ensures
        inner@ == trimmed(text@),
{
    let chars = chars_of(text);
    let n = chars.len();
    let mut start: usize = 0;
    assert(text@.subrange(0, n as int) =~= text@);
    while start < n && chars[start].is_whitespace()
        invariant
            start <= n,
            n == chars.len(),
            chars@ == text@,
            trim_start_of(text@) == trim_start_of(text@.subrange(start as int, n as int)),
        decreases n - start,
    {
        proof {
            let rest = text@.subrange(start as int, n as int);
            assert(rest.first() == chars@[start as int]);
            assert(rest.drop_first() =~= text@.subrange(start + 1, n as int));
        }
        start = start + 1;
    }
    let ghost headless = text@.subrange(start as int, n as int);
    proof {
        if start < n {
            assert(headless.first() == chars@[start as int]);
        }
        assert(trim_start_of(text@) == headless);
    }
    let mut end: usize = n;
    while end > start && chars[end - 1].is_whitespace()
        invariant
            start <= end <= n,
            n == chars.len(),
            chars@ == text@,
            headless == text@.subrange(start as int, n as int),
            trim_end_of(headless) == trim_end_of(text@.subrange(start as int, end as int)),
        decreases end,
    {
        proof {
            let rest = text@.subrange(start as int, end as int);
            assert(rest.last() == chars@[end - 1]);
            assert(rest.drop_last() =~= text@.subrange(start as int, end - 1));
        }
        end = end - 1;
    }
    proof {
        let rest = text@.subrange(start as int, end as int);
        if end > start {
            assert(rest.last() == chars@[end - 1]);
        }
        assert(trim_end_of(headless) == rest);
    }
    text.substring_char(start, end)
}

} // verus!
