//! Frame numbers: the number that a file name carries after the tag of its
//! dataset, as in `cr_12.pcd`.

use vstd::prelude::*;
use crate::name::{file_stem, spec_file_stem};
use crate::text::{chars_of, digit_of, digit_value, is_digit};

verus! {

/// What follows `tag` and an underscore at the head of `stem`, where
/// `stem` begins so.
pub open spec fn index_text(stem: Seq<char>, tag: Seq<char>) -> Option<Seq<char>> {
    let prefix = tag.push('_');
    if prefix.is_prefix_of(stem) {
        Some(stem.skip(prefix.len() as int))
    } else {
        None
    }
}

/// Whether `s` holds decimal digits only.
pub open spec fn all_digits(s: Seq<char>) -> bool {
    forall|i: int| 0 <= i < s.len() ==> is_digit(#[trigger] s[i])
}

/// The number that the decimal digits `digits` spell.
pub open spec fn decimal(digits: Seq<char>) -> int
    decreases digits.len(),
{
    if digits.len() == 0 {
        0
    } else {
        10 * decimal(digits.drop_last()) + digit_value(digits.last())
    }
}

/// `text` without the plus sign that may stand before a number.
pub open spec fn unsigned(text: Seq<char>) -> Seq<char> {
    if text.len() > 0 && text[0] == '+' {
        text.skip(1)
    } else {
        text
    }
}

/// The number that `text` spells: one or more decimal digits, a plus sign
/// before them or none, and nothing else, with a value that fits 32 bits.
pub open spec fn spec_parse_index(text: Seq<char>) -> Option<u32> {
    let digits = unsigned(text);
    if digits.len() > 0 && all_digits(digits) && decimal(digits) <= u32::MAX {
        Some(decimal(digits) as u32)
    } else {
        None
    }
}

/// Whether `path` is named as a frame of the dataset `tag`: the stem of
/// its file name is `tag`, an underscore and a number.
pub open spec fn is_numbered(path: Seq<char>, tag: Seq<char>) -> bool {
    match index_text(spec_file_stem(path), tag) {
        Some(text) => spec_parse_index(text) is Some,
        None => false,
    }
}

/// The frame number of `path` in the dataset `tag`: the number that
/// follows `tag` and an underscore in the stem of its file name. A path
/// that is not named so has the number `0`.
pub open spec fn spec_frame_index(path: Seq<char>, tag: Seq<char>) -> u32 {
    match index_text(spec_file_stem(path), tag) {
        Some(text) => match spec_parse_index(text) {
            Some(number) => number,
            None => 0,
        },
        None => 0,
    }
}

/// A number never shrinks as digits are added to its end.
proof fn lemma_decimal_grows(digits: Seq<char>, k: int)
    requires
        all_digits(digits),
        0 <= k <= digits.len(),
    ensures
        0 <= decimal(digits.take(k)) <= decimal(digits),
    decreases digits.len() - k,
{
    if k == digits.len() {
        assert(digits.take(k) =~= digits);
        lemma_decimal_not_negative(digits);
    } else {
        lemma_decimal_grows(digits, k + 1);
        let longer = digits.take(k + 1);
        assert(longer.drop_last() =~= digits.take(k));
        assert(is_digit(digits[k]));
        assert(longer.last() == digits[k]);
        lemma_decimal_not_negative(digits.take(k));
    }
}

proof fn lemma_decimal_not_negative(digits: Seq<char>)
    requires
        all_digits(digits),
    ensures
        0 <= decimal(digits),
    decreases digits.len(),
{
    if digits.len() > 0 {
        assert(is_digit(digits.last()));
        lemma_decimal_not_negative(digits.drop_last());
    }
}

/// What follows `tag` and an underscore at the head of `stem`.
pub(crate) fn strip_tag(stem: &Vec<char>, tag: &Vec<char>) -> (rest: Option<Vec<char>>)
    ensures
        index_text(stem@, tag@) is Some <==> rest is Some,
        rest matches Some(r) ==> index_text(stem@, tag@) == Some(r@),
{
    let n: usize = tag.len();
    if stem.len() <= n {
        return None;
    }
    let ghost prefix = tag@.push('_');
    let mut i: usize = 0;
    while i < n
        invariant
            i <= n,
            n == tag.len(),
            n < stem.len(),
            prefix == tag@.push('_'),
            forall|j: int| 0 <= j < i ==> stem[j] == tag[j],
        decreases n - i,
    {
        if stem[i] != tag[i] {
            proof {
                if prefix.is_prefix_of(stem@) {
                    assert(stem@.subrange(0, prefix.len() as int)[i as int] == prefix[i as int]);
                }
            }
            return None;
        }
        i = i + 1;
    }
    if stem[n] != '_' {
        proof {
            if prefix.is_prefix_of(stem@) {
                assert(stem@.subrange(0, prefix.len() as int)[n as int] == prefix[n as int]);
            }
        }
        return None;
    }
    let mut rest: Vec<char> = Vec::new();
    let mut k: usize = n + 1;
    assert(prefix =~= stem@.subrange(0, prefix.len() as int));
    while k < stem.len()
        invariant
            n + 1 <= k <= stem.len(),
            rest@ == stem@.subrange(n + 1, k as int),
        decreases stem.len() - k,
    {
        rest.push(stem[k]);
        k = k + 1;
        assert(stem@.subrange(n + 1, k as int) =~= stem@.subrange(n + 1, k - 1).push(stem[k - 1]));
    }
    assert(stem@.subrange(n + 1, stem.len() as int) =~= stem@.skip(n + 1));
    Some(rest)
}

/// Reads `text` as a frame number.
pub(crate) fn parse_index(text: &Vec<char>) -> (number: Option<u32>)
    ensures
        number == spec_parse_index(text@),
{
    let n: usize = text.len();
    let start: usize = if n > 0 && text[0] == '+' {
        1
    } else {
        0
    };
    let ghost digits = unsigned(text@);
    assert(digits =~= text@.skip(start as int));
    if start == n {
        return None;
    }
    let mut value: u64 = 0;
    let mut i: usize = start;
    assert(digits.take(0) =~= Seq::<char>::empty());
    while i < n
        invariant
            start <= i <= n,
            n == text.len(),
            start < n,
            digits == unsigned(text@),
            digits == text@.skip(start as int),
            all_digits(digits.take(i - start)),
            value == decimal(digits.take(i - start)),
            value <= u32::MAX,
        decreases n - i,
    {
        let ghost seen = digits.take(i - start);
        let ghost grown = digits.take(i - start + 1);
        proof {
            assert(grown.drop_last() =~= seen);
            assert(grown.last() == text[i as int]);
        }
        match digit_of(text[i]) {
            None => {
                assert(!is_digit(digits[i - start]));
                return None;
            },
            Some(d) => {
                let next: u64 = value * 10 + (d as u64);
                proof {
                    assert forall|j: int| 0 <= j < grown.len() implies is_digit(
                        #[trigger] grown[j],
                    ) by {
                        if j < seen.len() {
                            assert(grown[j] == seen[j]);
                        }
                    }
                }
                if next > 0xffff_ffff {
                    proof {
                        if all_digits(digits) {
                            lemma_decimal_grows(digits, i - start + 1);
                        }
                    }
                    return None;
                }
                value = next;
            },
        }
        i = i + 1;
    }
    assert(digits.take(n - start) =~= digits);
    Some(value as u32)
}

/// The frame number of the path `path` in the dataset `tag`, both given
/// by their characters.
pub(crate) fn index_of_chars(path: &Vec<char>, tag: &Vec<char>) -> (number: u32)
    ensures
        number == spec_frame_index(path@, tag@),
{
    let stem: Vec<char> = file_stem(path);
    match strip_tag(&stem, tag) {
        Some(text) => match parse_index(&text) {
            Some(number) => number,
            None => 0,
        },
        None => 0,
    }
}

/// The frame number of `path` in the dataset `data_type`.
///
/// It is the number written after `data_type` and an underscore in the
/// stem of the file name: `7` for `scans/cr_7.pcd` in the dataset `cr`.
/// A path whose name does not begin so, or goes on with anything but a
/// number that fits 32 bits, has the frame number `0`.
pub fn frame_index(path: &str, data_type: &str) -> (number: u32)
    ensures
        number == spec_frame_index(path@, data_type@),
{
    let path_chars: Vec<char> = chars_of(path);
    let tag_chars: Vec<char> = chars_of(data_type);
    index_of_chars(&path_chars, &tag_chars)
}

} // verus!
