//! The path of a request as the proxy takes it.

use vstd::prelude::*;
use vstd::string::*;
use crate::error::STATUS_NOT_FOUND;

verus! {

/// The least number of segments that a request path must have.
pub const MIN_SEGMENTS: usize = 2;

/// `path` without the slashes it starts with.
pub open spec fn trim_start(path: Seq<char>) -> Seq<char>
    decreases path.len(),
{
    if path.len() > 0 && path.first() == '/' {
        trim_start(path.drop_first())
    } else {
        path
    }
}

/// `path` without the slashes it ends with.
pub open spec fn trim_end(path: Seq<char>) -> Seq<char>
    decreases path.len(),
{
    if path.len() > 0 && path.last() == '/' {
        trim_end(path.drop_last())
    } else {
        path
    }
}

/// `path` without the slashes at either end.
pub open spec fn trimmed(path: Seq<char>) -> Seq<char> {
    trim_end(trim_start(path))
}

/// The number of slashes in `path`.
pub open spec fn slashes(path: Seq<char>) -> nat
    decreases path.len(),
{
    if path.len() == 0 {
        0
    } else if path.last() == '/' {
        slashes(path.drop_last()) + 1
    } else {
        slashes(path.drop_last())
    }
}

/// The number of segments that the slashes of `path` separate. An empty
/// path is one empty segment.
pub open spec fn segment_count(path: Seq<char>) -> nat {
    slashes(path) + 1
}

/// Whether the proxy takes a request for `path`: without the slashes at
/// either end it has at least `MIN_SEGMENTS` segments.
pub open spec fn is_valid_path(path: Seq<char>) -> bool {
    segment_count(trimmed(path)) >= MIN_SEGMENTS
}

/// The path of a request that the proxy takes: without slashes at either
/// end, and of at least `MIN_SEGMENTS` segments.
#[derive(Debug, Clone)]
pub struct GHPath(pub String);

/// Counts the slashes of `path`.
pub fn count_slashes(path: &str) -> (count: usize)
    ensures
        count == slashes(path@),
{
    let n: usize = path.unicode_len();
    let mut count: usize = 0;
    let mut seen: usize = 0;
    for c in it: path.chars()
        invariant
            n == path@.len(),
            it.seq() == path@,
            seen == it.index(),
            count <= seen,
            count == slashes(path@.take(seen as int)),
    {
        assert(path@.take(seen + 1).drop_last() =~= path@.take(seen as int));
        if c == '/' {
            count += 1;
        }
        seen += 1;
    }
    assert(path@.take(seen as int) =~= path@);
    count
}

/// What `trim_start` leaves: the path from its first character that is no
/// slash.
proof fn lemma_trim_start(path: Seq<char>, start: int)
    requires
        0 <= start <= path.len(),
        forall|j: int| 0 <= j < start ==> path[j] == '/',
        start < path.len() ==> path[start] != '/',
    ensures
        trim_start(path) == path.skip(start),
    decreases start,
{
    if start == 0 {
        assert(path.skip(0) =~= path);
    } else {
        let rest = path.drop_first();
        assert forall|j: int| 0 <= j < start - 1 implies rest[j] == '/' by {
            assert(rest[j] == path[j + 1]);
        }
        lemma_trim_start(rest, start - 1);
        assert(rest.skip(start - 1) =~= path.skip(start));
    }
}

/// What `trim_end` leaves: the path up to its last character that is no
/// slash.
proof fn lemma_trim_end(path: Seq<char>, end: int)
    requires
        0 <= end <= path.len(),
        forall|j: int| end <= j < path.len() ==> path[j] == '/',
        end > 0 ==> path[end - 1] != '/',
    ensures
        trim_end(path) == path.take(end),
    decreases path.len() - end,
{
    if end == path.len() {
        assert(path.take(end) =~= path);
    } else {
        let rest = path.drop_last();
        lemma_trim_end(rest, end);
        assert(rest.take(end) =~= path.take(end));
    }
}

/// Trimming a trimmed path changes nothing.
pub proof fn lemma_trimmed_is_trimmed(path: Seq<char>)
    ensures
        trimmed(trimmed(path)) == trimmed(path),
{
    lemma_trim_start_ends(path);
    lemma_trim_end_ends(trim_start(path));
    let inner = trimmed(path);
    lemma_trim_end_keeps_start(trim_start(path));
    assert(trim_start(inner) == inner);
    assert(trim_end(inner) == inner);
}

/// What `trim_start` leaves does not start with a slash.
proof fn lemma_trim_start_ends(path: Seq<char>)
    ensures
        trim_start(path).len() > 0 ==> trim_start(path).first() != '/',
    decreases path.len(),
{
    if path.len() > 0 && path.first() == '/' {
        lemma_trim_start_ends(path.drop_first());
    }
}

/// What `trim_end` leaves does not end with a slash.
proof fn lemma_trim_end_ends(path: Seq<char>)
    ensures
        trim_end(path).len() > 0 ==> trim_end(path).last() != '/',
    decreases path.len(),
{
    if path.len() > 0 && path.last() == '/' {
        lemma_trim_end_ends(path.drop_last());
    }
}

/// `trim_end` leaves the start of a path alone.
proof fn lemma_trim_end_keeps_start(path: Seq<char>)
    ensures
        trim_end(path).len() > 0 ==> path.len() > 0 && trim_end(path).first() == path.first(),
    decreases path.len(),
{
    if path.len() > 0 && path.last() == '/' {
        lemma_trim_end_keeps_start(path.drop_last());
    }
}

/// Strips the slashes from both ends of `path`.
pub fn trim_slashes(path: &str) -> (inner: &str)
    ensures
        inner@ == trimmed(path@),
{
    let n: usize = path.unicode_len();
    let mut start: usize = 0;
    let mut end: usize = 0;
    let mut seen: usize = 0;
    for c in it: path.chars()
        invariant
            n == path@.len(),
            it.seq() == path@,
            seen == it.index(),
            start <= end <= seen,
            forall|j: int| 0 <= j < start ==> path@[j] == '/',
            forall|j: int| end <= j < seen ==> path@[j] == '/',
            start < end ==> path@[start as int] != '/' && path@[end - 1] != '/',
            start == end ==> end == seen,
    {
        if c != '/' {
            end = seen + 1;
        } else if start == end {
            start = seen + 1;
            end = seen + 1;
        }
        seen += 1;
    }
    proof {
        lemma_trim_start(path@, start as int);
        let front = path@.skip(start as int);
        assert forall|j: int| end - start <= j < front.len() implies front[j] == '/' by {
            assert(front[j] == path@[j + start]);
        }
        if end > start {
            assert(front[end - start - 1] == path@[end - 1]);
        }
        lemma_trim_end(front, end - start);
        assert(front.take(end - start) =~= path@.subrange(start as int, end as int));
    }
    path.substring_char(start, end)
}

impl GHPath {
    /// Takes the path of a request: strips the slashes at both ends and
    /// counts the segments. A path of fewer than `MIN_SEGMENTS` segments,
    /// an empty one among them, is answered as not found.
    pub fn from_request_parts(path: &str) -> (result: Result<GHPath, u16>)
        ensures
            match result {
                Ok(gh_path) => is_valid_path(path@) && gh_path.0@ == trimmed(path@),
                Err(status) => !is_valid_path(path@) && status == STATUS_NOT_FOUND,
            },
    {
        let inner = trim_slashes(path);
        let separators = count_slashes(inner);
        if separators < MIN_SEGMENTS - 1 {
            Err(STATUS_NOT_FOUND)
        } else {
            Ok(GHPath(String::from_str(inner)))
        }
    }
}

} // verus!
