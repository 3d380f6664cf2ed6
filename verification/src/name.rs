//! File names: the last segment of a path, its stem and its extension.
//!
//! A path is read as segments separated by `/`. Its file name is the last
//! segment, where empty segments and segments that are a single dot do not
//! count; a last segment of two dots is a way up and no name. A dot splits
//! the name into stem and extension, the last dot where there are several;
//! a dot that opens the name splits nothing.

use vstd::prelude::*;

verus! {

/// The place of the last `c` in `s`, or `-1` where `s` holds none.
pub open spec fn last_position(s: Seq<char>, c: char) -> int
    decreases s.len(),
{
    if s.len() == 0 {
        -1
    } else if s.last() == c {
        s.len() - 1
    } else {
        last_position(s.drop_last(), c)
    }
}

/// `last_position` is the place of a `c` after which no `c` follows, and
/// the only such place.
pub proof fn lemma_last_position(s: Seq<char>, c: char, at: int)
    ensures
        -1 <= last_position(s, c) < s.len(),
        last_position(s, c) >= 0 ==> s[last_position(s, c)] == c,
        last_position(s, c) < at < s.len() ==> s[at] != c,
    decreases s.len(),
{
    if s.len() > 0 && s.last() != c {
        lemma_last_position(s.drop_last(), c, at);
    }
}

/// How many characters at the end of `path` belong to no segment that
/// counts: `1` for a separator, `2` for a separator and a dot, `1` for a
/// path that is a dot and no more, `0` otherwise.
pub open spec fn idle_tail(path: Seq<char>) -> int {
    if path.len() > 0 && path.last() == '/' {
        1
    } else if path.len() >= 2 && path.last() == '.' && path[path.len() - 2] == '/' {
        2
    } else if path.len() == 1 && path[0] == '.' {
        1
    } else {
        0
    }
}

/// `path` up to the end of its last segment that counts.
pub open spec fn trim_tail(path: Seq<char>) -> Seq<char>
    decreases path.len(),
{
    if idle_tail(path) == 0 {
        path
    } else {
        trim_tail(path.take(path.len() - idle_tail(path)))
    }
}

/// The file name of `path`: its last segment that is neither empty nor a
/// dot, or nothing where this is two dots or where there is none.
pub open spec fn spec_file_name(path: Seq<char>) -> Seq<char> {
    let trimmed = trim_tail(path);
    let name = trimmed.skip(last_position(trimmed, '/') + 1);
    if name == seq!['.', '.'] {
        Seq::empty()
    } else {
        name
    }
}

/// The extension of `path`: what follows the last dot of its file name.
/// A name without a dot has none, nor has a name whose only dot opens it.
pub open spec fn spec_extension(path: Seq<char>) -> Option<Seq<char>> {
    let name = spec_file_name(path);
    let dot = last_position(name, '.');
    if dot <= 0 {
        None
    } else {
        Some(name.skip(dot + 1))
    }
}

/// The stem of `path`: its file name without the extension and the dot
/// before it.
pub open spec fn spec_file_stem(path: Seq<char>) -> Seq<char> {
    let name = spec_file_name(path);
    let dot = last_position(name, '.');
    if dot <= 0 {
        name
    } else {
        name.take(dot)
    }
}

/// Whether `path` names a point-cloud file: its extension is `pcd`, in
/// lower case.
pub open spec fn spec_is_point_cloud_file(path: Seq<char>) -> bool {
    spec_extension(path) == Some(seq!['p', 'c', 'd'])
}

/// The place after the last `c` in `s`: `0` where `s` holds none.
pub(crate) fn after_last(s: &Vec<char>, c: char) -> (after: usize)
    ensures
        after == last_position(s@, c) + 1,
        after <= s.len(),
{
    let mut i: usize = s.len();
    while i > 0 && s[i - 1] != c
        invariant
            i <= s.len(),
            forall|j: int| i <= j < s.len() ==> s[j] != c,
        decreases i,
    {
        i = i - 1;
    }
    proof {
        lemma_last_position(s@, c, i as int - 1);
        let found = last_position(s@, c);
        if found >= i {
            assert(s[found] == c);
        }
    }
    i
}

/// The characters of `s` from `from` up to `to`.
pub(crate) fn slice_of(s: &Vec<char>, from: usize, to: usize) -> (part: Vec<char>)
    requires
        from <= to <= s.len(),
    ensures
        part@ == s@.subrange(from as int, to as int),
{
    let mut part: Vec<char> = Vec::new();
    let mut i: usize = from;
    while i < to
        invariant
            from <= i <= to <= s.len(),
            part@ == s@.subrange(from as int, i as int),
        decreases to - i,
    {
        part.push(s[i]);
        i = i + 1;
        assert(s@.subrange(from as int, i as int) =~= s@.subrange(from as int, i - 1).push(
            s[i - 1],
        ));
    }
    part
}

/// `idle_tail` of the first `end` characters of `path`.
fn idle_before(path: &Vec<char>, end: usize) -> (idle: usize)
    requires
        end <= path.len(),
    ensures
        idle == idle_tail(path@.take(end as int)),
        idle <= end,
{
    if end > 0 && path[end - 1] == '/' {
        1
    } else if end >= 2 && path[end - 1] == '.' && path[end - 2] == '/' {
        2
    } else if end == 1 && path[0] == '.' {
        1
    } else {
        0
    }
}

/// The file name of `path`.
pub(crate) fn file_name(path: &Vec<char>) -> (name: Vec<char>)
    ensures
        name@ == spec_file_name(path@),
{
    let mut end: usize = path.len();
    let mut idle: usize = idle_before(path, end);
    assert(path@.take(end as int) =~= path@);
    while idle > 0
        invariant
            idle <= end <= path.len(),
            idle == idle_tail(path@.take(end as int)),
            trim_tail(path@) == trim_tail(path@.take(end as int)),
        decreases end,
    {
        assert(path@.take(end as int).take(end - idle) =~= path@.take(end - idle));
        end = end - idle;
        idle = idle_before(path, end);
    }
    let trimmed: Vec<char> = slice_of(path, 0, end);
    assert(trimmed@ =~= path@.take(end as int));
    let start: usize = after_last(&trimmed, '/');
    let name: Vec<char> = slice_of(&trimmed, start, end);
    assert(name@ =~= trimmed@.skip(start as int));
    let up: bool = name.len() == 2 && name[0] == '.' && name[1] == '.';
    proof {
        let dots = seq!['.', '.'];
        if up {
            assert(name@ =~= dots);
        } else if name@ == dots {
            assert(dots[0] == '.' && dots[1] == '.');
        }
    }
    if up {
        Vec::new()
    } else {
        name
    }
}

/// The extension of `path`, where it has one.
pub(crate) fn extension(path: &Vec<char>) -> (ext: Option<Vec<char>>)
    ensures
        spec_extension(path@) is Some <==> ext is Some,
        ext matches Some(e) ==> spec_extension(path@) == Some(e@),
{
    let name: Vec<char> = file_name(path);
    let after_dot: usize = after_last(&name, '.');
    if after_dot <= 1 {
        None
    } else {
        let ext: Vec<char> = slice_of(&name, after_dot, name.len());
        assert(ext@ =~= name@.skip(after_dot as int));
        Some(ext)
    }
}

/// The stem of `path`.
pub(crate) fn file_stem(path: &Vec<char>) -> (stem: Vec<char>)
    ensures
        stem@ == spec_file_stem(path@),
{
    let name: Vec<char> = file_name(path);
    let after_dot: usize = after_last(&name, '.');
    if after_dot <= 1 {
        name
    } else {
        let stem: Vec<char> = slice_of(&name, 0, after_dot - 1);
        assert(stem@ =~= name@.take(after_dot - 1));
        stem
    }
}

} // verus!
