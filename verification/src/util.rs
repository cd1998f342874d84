//! Names of cache files, and small helpers on request values.

use vstd::prelude::*;
use vstd::string::*;
use vstd::utf8::{decode_utf8, encode_utf8, valid_utf8};

verus! {

/// The cache key of a request path: every `/` becomes `_`, every other
/// character stays.
pub open spec fn flattened(path: Seq<char>) -> Seq<char> {
    Seq::new(path.len(), |i: int| if path[i] == '/' { '_' } else { path[i] })
}

/// Index of the last `.` in `name`, or `-1` where it holds none.
pub open spec fn last_dot(name: Seq<char>) -> int
    decreases name.len(),
{
    if name.len() == 0 {
        -1
    } else if name.last() == '.' {
        name.len() - 1
    } else {
        last_dot(name.drop_last())
    }
}

/// What `last_dot` finds: a `.` with no `.` behind it, or nothing in a name
/// without one.
pub proof fn lemma_last_dot(name: Seq<char>)
    ensures
        -1 <= last_dot(name) < name.len(),
        last_dot(name) >= 0 ==> name[last_dot(name)] == '.',
        forall|j: int| last_dot(name) < j < name.len() ==> name[j] != '.',
    decreases name.len(),
{
    if name.len() > 0 && name.last() != '.' {
        let front = name.drop_last();
        lemma_last_dot(front);
        assert forall|j: int| last_dot(name) < j < name.len() implies name[j] != '.' by {
            if j < front.len() {
                assert(front[j] == name[j]);
            }
        }
    }
}

/// Tells whether two strings hold the same characters.
pub fn same_text(a: &str, b: &str) -> (r: bool)
    ensures
        r == (a@ == b@),
{
    let left = a.as_bytes();
    let right = b.as_bytes();
    proof {
        vstd::utf8::encode_utf8_decode_utf8(a@);
        vstd::utf8::encode_utf8_decode_utf8(b@);
    }
    if left.len() != right.len() {
        return false;
    }
    let mut i: usize = 0;
    while i < left.len()
        invariant
            i <= left.len(),
            left.len() == right.len(),
            forall|j: int| 0 <= j < i ==> left@[j] == right@[j],
            left@ == encode_utf8(a@),
            right@ == encode_utf8(b@),
        decreases left.len() - i,
    {
        if left[i] != right[i] {
            return false;
        }
        i += 1;
    }
    assert(left@ =~= right@);
    true
}

/// Appends a character to a text.
///
/// Calls `String::push`, which puts `c` at the end of `text`.
#[verifier::external_body]
pub(crate) fn push_char(text: &mut String, c: char)
    ensures
        final(text)@ == old(text)@.push(c),
{
    text.push(c)
}

/// A cache key is as long as its path and holds no `/`, so it names a file
/// directly in the cache directory.
pub proof fn lemma_flattened_is_flat(path: Seq<char>)
    ensures
        flattened(path).len() == path.len(),
        !flattened(path).contains('/'),
{
}

/// Derives the cache key of a request path. Equal paths give equal keys;
/// paths that differ only in where their `/` and `_` stand may share one.
pub fn cache_key(path: &str) -> (key: String)
    ensures
        key@ == flattened(path@),
        !key@.contains('/'),
{
    let n: usize = path.unicode_len();
    let mut key = String::new();
    let mut seen: usize = 0;
    for c in it: path.chars()
        invariant
            n == path@.len(),
            it.seq() == path@,
            seen == it.index(),
            key@ == flattened(path@.take(seen as int)),
    {
        if c == '/' {
            push_char(&mut key, '_');
        } else {
            push_char(&mut key, c);
        }
        assert(key@ =~= flattened(path@.take(seen + 1)));
        seen += 1;
    }
    assert(path@.take(seen as int) =~= path@);
    key
}

/// Whether `name` splits at its last `.` into a stem and an extension: it
/// holds a `.` that is not its first character, and is not `..`.
///
/// Here and in what follows `name` is a bare file name, as the files of the
/// cache directory have them: a `/` in it counts as any other character, and
/// no part of it is taken for a directory.
pub open spec fn has_extension(name: Seq<char>) -> bool {
    name != seq!['.', '.'] && last_dot(name) > 0
}

/// What follows the last `.` of `name`, where `name` has an extension.
pub open spec fn extension_of(name: Seq<char>) -> Option<Seq<char>> {
    if has_extension(name) {
        Some(name.subrange(last_dot(name) + 1, name.len() as int))
    } else {
        None
    }
}

/// What stands before the last `.` of `name`; all of `name` where it has no
/// extension.
pub open spec fn stem_of(name: Seq<char>) -> Seq<char> {
    if has_extension(name) {
        name.subrange(0, last_dot(name))
    } else {
        name
    }
}

/// `name` with its extension replaced by `ext`; an empty `ext` leaves the
/// stem alone.
pub open spec fn with_extension(name: Seq<char>, ext: Seq<char>) -> Seq<char> {
    if ext.len() == 0 {
        stem_of(name)
    } else {
        stem_of(name) + seq!['.'] + ext
    }
}

/// The suffix that marks a file as the record of a content type.
pub open spec fn type_suffix() -> Seq<char> {
    seq!['t', 'y', 'p', 'e']
}

/// Name of the file that records the content type of the cache file `name`,
/// a bare file name: the stem, the extension that `name` had, and `.type`.
pub open spec fn typepath_of(name: Seq<char>) -> Seq<char> {
    let ext = match extension_of(name) {
        Some(e) => e,
        None => Seq::<char>::empty(),
    };
    with_extension(name, ext + seq!['.'] + type_suffix())
}

/// The extension that the cache file had whose content type `typepath`
/// records: the extension of `typepath` without its own last extension.
pub open spec fn requested_extension(typepath: Seq<char>) -> Option<Seq<char>> {
    extension_of(stem_of(typepath))
}

/// The record of a content type is another file than the object it
/// belongs to, and a sweep takes it for a record.
pub proof fn lemma_typepath_is_a_record(name: Seq<char>)
    ensures
        typepath_of(name) != name,
        extension_of(typepath_of(name)) == Some(type_suffix()),
{
    lemma_last_dot(name);
    let record = typepath_of(name);
    let ext = match extension_of(name) {
        Some(e) => e,
        None => Seq::<char>::empty(),
    };
    let tail = ext + seq!['.'] + type_suffix();
    assert(tail.len() > 0);
    assert(record == stem_of(name) + seq!['.'] + tail);
    let dot: int = (stem_of(name).len() + 1 + ext.len()) as int;
    assert(record.len() == dot + 5);
    assert(record[dot] == '.');
    assert(record.len() > name.len());
    lemma_last_dot_at(record, dot);
    assert(record.subrange(dot + 1, record.len() as int) =~= type_suffix());
    assert(record != seq!['.', '.']);
}

/// The record of a content type keeps the extension of its object: the
/// extension read back from the name of the record is the one the object
/// had. For an object without an extension, an empty extension or none is
/// read back.
pub proof fn lemma_record_keeps_extension(name: Seq<char>)
    ensures
        has_extension(name) ==> requested_extension(typepath_of(name)) == extension_of(name),
        !has_extension(name) ==> requested_extension(typepath_of(name)) is None
            || requested_extension(typepath_of(name)) == Some(Seq::<char>::empty()),
{
    lemma_last_dot(name);
    let record = typepath_of(name);
    let ext = match extension_of(name) {
        Some(e) => e,
        None => Seq::<char>::empty(),
    };
    let tail = ext + seq!['.'] + type_suffix();
    assert(tail.len() > 0);
    assert(record == stem_of(name) + seq!['.'] + tail);
    let dot: int = (stem_of(name).len() + 1 + ext.len()) as int;
    assert(record.len() == dot + 5);
    assert(record[dot] == '.');
    lemma_last_dot_at(record, dot);
    assert(record != seq!['.', '.']);
    let inner = stem_of(record);
    assert(inner =~= record.subrange(0, dot));
    if has_extension(name) {
        assert(inner =~= name);
    } else {
        assert(inner =~= name + seq!['.']);
        lemma_last_dot_at(inner, name.len() as int);
        if has_extension(inner) {
            assert(inner.subrange(name.len() as int + 1, inner.len() as int) =~= Seq::<char>::empty());
        }
    }
}

/// A `.` with no `.` behind it is the last one.
proof fn lemma_last_dot_at(name: Seq<char>, at: int)
    requires
        0 <= at < name.len(),
        name[at] == '.',
        forall|j: int| at < j < name.len() ==> name[j] != '.',
    ensures
        last_dot(name) == at,
{
    lemma_last_dot(name);
}

/// Finds the last `.` of `name`.
pub fn find_last_dot(name: &str) -> (at: Option<usize>)
    ensures
        match at {
            Some(i) => i == last_dot(name@),
            None => last_dot(name@) == -1,
        },
{
    let n: usize = name.unicode_len();
    let mut at: Option<usize> = None;
    let mut seen: usize = 0;
    for c in it: name.chars()
        invariant
            n == name@.len(),
            it.seq() == name@,
            seen == it.index(),
            match at {
                Some(i) => i == last_dot(name@.take(seen as int)),
                None => last_dot(name@.take(seen as int)) == -1,
            },
    {
        assert(name@.take(seen + 1).drop_last() =~= name@.take(seen as int));
        if c == '.' {
            at = Some(seen);
        }
        seen += 1;
    }
    assert(name@.take(seen as int) =~= name@);
    at
}

/// Tells whether `name` is exactly `..`.
fn is_dot_dot(name: &str) -> (r: bool)
    ensures
        r == (name@ == seq!['.', '.']),
{
    if name.unicode_len() != 2 {
        return false;
    }
    let r = name.get_char(0) == '.' && name.get_char(1) == '.';
    assert(r ==> name@ =~= seq!['.', '.']);
    r
}

/// Where `name` splits into stem and extension: the index of the `.`
/// between them.
pub fn extension_start(name: &str) -> (at: Option<usize>)
    ensures
        at is Some == has_extension(name@),
        at matches Some(i) ==> i == last_dot(name@),
{
    if is_dot_dot(name) {
        return None;
    }
    match find_last_dot(name) {
        Some(i) => if i > 0 {
            Some(i)
        } else {
            None
        },
        None => None,
    }
}

/// The extension of a bare file name, as `extension_of` defines it. A `/`
/// in `name` counts as any other character.
pub fn extension(name: &str) -> (ext: Option<String>)
    ensures
        ext.deep_view() == extension_of(name@),
{
    proof {
        lemma_last_dot(name@);
    }
    match extension_start(name) {
        Some(i) => {
            let n: usize = name.unicode_len();
            Some(String::from_str(name.substring_char(i + 1, n)))
        },
        None => None,
    }
}

/// Tells whether `name` names the record of a content type: a file with
/// the extension `type`.
pub fn is_typepath(name: &str) -> (r: bool)
    ensures
        r == (extension_of(name@) == Some(type_suffix())),
{
    proof {
        lemma_last_dot(name@);
        reveal_strlit("type");
        assert("type"@ =~= type_suffix());
    }
    match extension_start(name) {
        Some(i) => {
            let n: usize = name.unicode_len();
            same_text(name.substring_char(i + 1, n), "type")
        },
        None => false,
    }
}

/// The stem of a bare file name, as `stem_of` defines it. A `/` in `name`
/// counts as any other character.
pub fn file_stem(name: &str) -> (stem: String)
    ensures
        stem@ == stem_of(name@),
{
    proof {
        lemma_last_dot(name@);
    }
    match extension_start(name) {
        Some(i) => String::from_str(name.substring_char(0, i)),
        None => String::from_str(name),
    }
}

/// Name of the file that records the content type of the cache file
/// `filepath`. `filepath` is the bare name of a file in the cache
/// directory, such as a cache key, which holds no `/`; the name that comes
/// back lies in the same directory.
pub fn typepath(filepath: &str) -> (path: String)
    ensures
        path@ == typepath_of(filepath@),
{
    proof {
        reveal_strlit(".");
        reveal_strlit("type");
        lemma_last_dot(filepath@);
    }
    let mut path = file_stem(filepath);
    path.append(".");
    match extension(filepath) {
        Some(ext) => {
            path.append(ext.as_str());
        },
        None => {},
    }
    path.append(".");
    path.append("type");
    assert(path@ =~= typepath_of(filepath@));
    path
}

/// The files that removing the cache entry `filepath` deletes: the object
/// and the record of its content type. Each is removed whether or not the
/// other is there.
pub fn remove_file(filepath: &str) -> (paths: (String, String))
    ensures
        paths.0@ == filepath@,
        paths.1@ == typepath_of(filepath@),
{
    (String::from_str(filepath), typepath(filepath))
}

/// The extension that the cache file had whose content type `typepath`
/// records.
pub fn requested_extension_of(typepath: &str) -> (ext: Option<String>)
    ensures
        ext.deep_view() == requested_extension(typepath@),
{
    let stem = file_stem(typepath);
    extension(stem.as_str())
}

/// The media type that goes by the file extension `extension`, in any
/// case, as the value of a `content-type` header; `None` for an extension
/// that no media type is known by.
pub uninterp spec fn media_type_of(extension: Seq<char>) -> Option<Seq<char>>;

/// Looks up the media type that goes by a file extension.
///
/// Calls `rocket::http::ContentType::from_extension` and renders what it
/// finds with `to_string`. The result is what these give for `extension`,
/// named `media_type_of(extension)`.
#[verifier::external_body]
pub(crate) fn media_type(extension: &str) -> (found: Option<String>)
    ensures
        found.deep_view() == media_type_of(extension@),
{
    match rocket::http::ContentType::from_extension(extension) {
        Some(content_type) => Some(content_type.to_string()),
        None => None,
    }
}

/// The text that the bytes `bytes` encode in UTF-8.
///
/// Calls `String::from_utf8`: bytes that are valid UTF-8 give the string
/// they encode, other bytes give `None`.
#[verifier::external_body]
pub(crate) fn text_of(bytes: Vec<u8>) -> (text: Option<String>)
    ensures
        text is Some == valid_utf8(bytes@),
        text matches Some(t) ==> t@ == decode_utf8(bytes@),
{
    match String::from_utf8(bytes) {
        Ok(text) => Some(text),
        Err(_) => None,
    }
}

/// The content type of an object of which nothing better is known.
pub open spec fn octet_stream() -> Seq<char> {
    "application/octet-stream"@
}

/// The content type that upstream declared, or the type of arbitrary
/// bytes where it declared none.
pub open spec fn declared_type(declared: Option<Seq<char>>) -> Seq<char> {
    match declared {
        Some(content_type) => content_type,
        None => octet_stream(),
    }
}

/// The content type guessed for the object whose content type `typepath`
/// should record: the media type that goes by the extension the object
/// had, or the type of arbitrary bytes.
pub open spec fn sniffed_type(typepath: Seq<char>) -> Seq<char> {
    match requested_extension(typepath) {
        Some(ext) => declared_type(media_type_of(ext)),
        None => octet_stream(),
    }
}

/// The content type of a cached object, given what reading its record
/// `typepath` came to: the recorded text, or a guess by the extension
/// where the record is missing or is no text.
pub open spec fn recorded_type(recorded: Option<Seq<u8>>, typepath: Seq<char>) -> Seq<char> {
    match recorded {
        Some(bytes) => if valid_utf8(bytes) {
            decode_utf8(bytes)
        } else {
            sniffed_type(typepath)
        },
        None => sniffed_type(typepath),
    }
}

/// The content type that upstream declared, or the type of arbitrary
/// bytes where it declared none.
pub fn content_type_upstream(declared: Option<String>) -> (content_type: String)
    ensures
        content_type@ == declared_type(declared.deep_view()),
{
    match declared {
        Some(content_type) => content_type,
        None => String::from_str("application/octet-stream"),
    }
}

/// The content type guessed for the object whose content type `typepath`
/// should record.
pub fn content_type_sniffed(typepath: &str) -> (content_type: String)
    ensures
        content_type@ == sniffed_type(typepath@),
{
    match requested_extension_of(typepath) {
        Some(ext) => content_type_upstream(media_type(ext.as_str())),
        None => String::from_str("application/octet-stream"),
    }
}

/// The content type of a cached object, given what reading its record
/// `typepath` came to: `recorded` holds the bytes of the record, or `None`
/// where it could not be read.
pub fn content_type_typepath(recorded: Option<Vec<u8>>, typepath: &str) -> (content_type: String)
    ensures
        content_type@ == recorded_type(
            match recorded {
                Some(bytes) => Some(bytes@),
                None => None,
            },
            typepath@,
        ),
{
    match recorded {
        Some(bytes) => {
            match text_of(bytes) {
                Some(text) => text,
                None => content_type_sniffed(typepath),
            }
        },
        None => content_type_sniffed(typepath),
    }
}

/// `value` up to its first comma; all of it where it holds none.
pub open spec fn before_comma(value: Seq<char>) -> Seq<char>
    decreases value.len(),
{
    if value.len() == 0 || value.first() == ',' {
        Seq::empty()
    } else {
        seq![value.first()] + before_comma(value.drop_first())
    }
}

/// The address a request is logged under: the first address of the
/// `X-Forwarded-For` header, else the `X-Real-IP` header, else the address
/// of the peer, else `-`.
pub open spec fn client_address(
    forwarded_for: Option<Seq<char>>,
    real_ip: Option<Seq<char>>,
    peer: Option<Seq<char>>,
) -> Seq<char> {
    match forwarded_for {
        Some(list) => before_comma(list),
        None => match real_ip {
            Some(ip) => ip,
            None => match peer {
                Some(ip) => ip,
                None => "-"@,
            },
        },
    }
}

/// Where `before_comma` ends: at the first comma, or at the end of a value
/// without one.
proof fn lemma_before_comma(value: Seq<char>, at: int)
    requires
        0 <= at <= value.len(),
        forall|j: int| 0 <= j < at ==> value[j] != ',',
        at < value.len() ==> value[at] == ',',
    ensures
        before_comma(value) == value.take(at),
    decreases value.len(),
{
    if value.len() == 0 || value.first() == ',' {
        assert(value.take(0) =~= Seq::<char>::empty());
    } else {
        let rest = value.drop_first();
        assert forall|j: int| 0 <= j < at - 1 implies rest[j] != ',' by {
            assert(rest[j] == value[j + 1]);
        }
        lemma_before_comma(rest, at - 1);
        assert(seq![value.first()] + rest.take(at - 1) =~= value.take(at));
    }
}

/// `value` up to its first comma.
pub fn first_of_list(value: &str) -> (first: String)
    ensures
        first@ == before_comma(value@),
{
    let n: usize = value.unicode_len();
    let mut end: Option<usize> = None;
    let mut seen: usize = 0;
    for c in it: value.chars()
        invariant
            n == value@.len(),
            it.seq() == value@,
            seen == it.index(),
            match end {
                Some(i) => i < seen && value@[i as int] == ',' && forall|j: int|
                    0 <= j < i ==> value@[j] != ',',
                None => forall|j: int| 0 <= j < seen ==> value@[j] != ',',
            },
    {
        if end.is_none() && c == ',' {
            end = Some(seen);
        }
        seen += 1;
    }
    let at: usize = match end {
        Some(i) => i,
        None => n,
    };
    proof {
        lemma_before_comma(value@, at as int);
    }
    String::from_str(value.substring_char(0, at))
}

/// The address a request is logged under.
pub fn get_ip(forwarded_for: Option<&str>, real_ip: Option<&str>, peer: Option<&str>) -> (ip:
    String)
    ensures
        ip@ == client_address(forwarded_for.deep_view(), real_ip.deep_view(), peer.deep_view()),
{
    if let Some(list) = forwarded_for {
        return first_of_list(list);
    }
    if let Some(ip) = real_ip {
        return String::from_str(ip);
    }
    if let Some(ip) = peer {
        return String::from_str(ip);
    }
    String::from_str("-")
}

/// The user agent a request is logged under: the header, or `-`.
pub fn get_ua(user_agent: Option<String>) -> (ua: String)
    ensures
        ua@ == match user_agent {
            Some(agent) => agent@,
            None => "-"@,
        },
{
    match user_agent {
        Some(agent) => agent,
        None => String::from_str("-"),
    }
}

} // verus!
