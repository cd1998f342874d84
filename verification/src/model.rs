//! A model of the cache directory and of upstream, and what holds of the
//! handler and of the sweep when their actions are carried out faithfully.
//!
//! The directory is a map from file names to contents, upstream a pair of
//! functions from addresses to answers. `serve` runs the steps of the
//! handler against them, `swept` removes what a sweep plans to remove.

use vstd::prelude::*;
use vstd::utf8::encode_utf8;
use crate::error::{spec_is_success, ResponseView, STATUS_PAYLOAD_TOO_LARGE};
use crate::gh::extract::trimmed;
use crate::gh::fetch::upstream_url;
use crate::gh::router::{
    is_admitted, proxy_step, target_of, ActionView, CachePutView, CacheReadView, EventView,
    InboundView, ProxyStateView,
};
use crate::task::{cache_file_of, is_expired, sweep_plan, DirEntryView, SweepPlanView};
use crate::util::{lemma_typepath_is_a_record, recorded_type, typepath_of};

verus! {

/// The files of the cache directory: what each name holds.
pub type Directory = Map<Seq<char>, Seq<u8>>;

/// What reading the cache entry `file` with its record `typepath` comes
/// to in `directory`.
pub open spec fn read_entry(directory: Directory, file: Seq<char>, typepath: Seq<char>)
    -> CacheReadView {
    if directory.contains_key(file) {
        CacheReadView::Hit {
            body: directory[file],
            content_type: if directory.contains_key(typepath) {
                Some(directory[typepath])
            } else {
                None
            },
        }
    } else {
        CacheReadView::Miss
    }
}

/// The directory after `body` was written through as `store` says: the
/// body in the file of the object, the content type in its record.
pub open spec fn written(directory: Directory, store: Option<CachePutView>, body: Seq<u8>)
    -> Directory {
    match store {
        Some(s) => directory.insert(s.file, body).insert(s.typepath, encode_utf8(s.content_type)),
        None => directory,
    }
}

/// The directory after the cache entry `name` was removed: both the object
/// and the record of its content type are gone.
pub open spec fn removed(directory: Directory, name: Seq<char>) -> Directory {
    directory.remove(name).remove(typepath_of(name))
}

/// Whether a sweep that follows `plan` removes the cache entry `name`.
pub open spec fn plans_removal(plan: SweepPlanView, name: Seq<char>) -> bool {
    plan.expired.contains(name) || exists|i: int|
        0 <= i < plan.evicted.len() && (#[trigger] plan.evicted[i]).name == name
}

/// The directory after a sweep that followed `plan`.
pub open spec fn swept(directory: Directory, plan: SweepPlanView) -> Directory {
    directory.remove_keys(
        Set::new(
            |path: Seq<char>|
                exists|name: Seq<char>|
                    #[trigger] plans_removal(plan, name) && (path == name || path == typepath_of(
                        name,
                    )),
        ),
    )
}

/// After a cache entry was removed, a read of it finds nothing, and the
/// record of its content type is gone with it.
pub proof fn lemma_removed_entry_is_gone(directory: Directory, name: Seq<char>)
    ensures
        read_entry(removed(directory, name), name, typepath_of(name)) is Miss,
        !removed(directory, name).contains_key(typepath_of(name)),
{
}

/// The world around the handler: the cache directory, what upstream
/// answers to a `HEAD` and to a `GET` request for an address, and the number
/// of requests that upstream has received.
pub struct World {
    pub directory: Directory,
    pub head: spec_fn(Seq<char>) -> EventView,
    pub get: spec_fn(Seq<char>) -> EventView,
    pub requests: nat,
}

/// Whether upstream answers each request in kind: a `HEAD` request with
/// headers or a failure, a `GET` request with an object or a failure.
pub open spec fn answers_in_kind(world: World) -> bool {
    &&& forall|url: Seq<char>|
        #![trigger (world.head)(url)]
        (world.head)(url) is Head || (world.head)(url) is HeadFailed
    &&& forall|url: Seq<char>|
        #![trigger (world.get)(url)]
        (world.get)(url) is Get || (world.get)(url) is GetFailed
}

/// How a request ended: the answer, and the world it left behind.
pub struct Served {
    pub response: ResponseView,
    pub world: World,
}

/// Runs the handler from `state` on `event`, carrying out each action in
/// `world`, for at most `steps` steps. `None` where the handler has not
/// answered by then.
pub open spec fn run(
    file_max: u64,
    token: Option<Seq<char>>,
    state: ProxyStateView,
    event: EventView,
    world: World,
    steps: nat,
) -> Option<Served>
    decreases steps,
{
    if steps == 0 {
        None
    } else {
        match proxy_step(file_max, token, state, event) {
            Some((next, ActionView::Respond { response, store })) => Some(
                Served {
                    response,
                    world: World {
                        directory: written(world.directory, store, response.body),
                        ..world
                    },
                },
            ),
            Some((next, ActionView::ReadCache { file, typepath })) => run(
                file_max,
                token,
                next,
                EventView::Cache(read_entry(world.directory, file, typepath)),
                world,
                (steps - 1) as nat,
            ),
            Some((next, ActionView::Head { url })) => run(
                file_max,
                token,
                next,
                (world.head)(url),
                World { requests: world.requests + 1, ..world },
                (steps - 1) as nat,
            ),
            Some((next, ActionView::Get { url })) => run(
                file_max,
                token,
                next,
                (world.get)(url),
                World { requests: world.requests + 1, ..world },
                (steps - 1) as nat,
            ),
            None => None,
        }
    }
}

/// Serves `request` in `world`: the handler takes at most four steps, one
/// for the request, one for the cache, two for upstream.
pub open spec fn serve(file_max: u64, token: Option<Seq<char>>, request: InboundView, world: World)
    -> Option<Served> {
    run(file_max, token, ProxyStateView::Start, EventView::Request(request), world, 4)
}

/// Every request is answered, where upstream answers in kind.
pub proof fn lemma_serve_answers(
    file_max: u64,
    token: Option<Seq<char>>,
    request: InboundView,
    world: World,
)
    requires
        answers_in_kind(world),
    ensures
        serve(file_max, token, request, world) is Some,
{
    reveal_with_fuel(run, 5);
    let target = target_of(trimmed(request.path));
    let url = upstream_url(target.path);
    assert((world.head)(url) is Head || (world.head)(url) is HeadFailed);
    assert((world.get)(url) is Get || (world.get)(url) is GetFailed);
}

/// An object that was written through is read back as it was written:
/// the same body, and exactly the content type that was recorded.
pub proof fn lemma_write_then_read(
    directory: Directory,
    file: Seq<char>,
    content_type: Seq<char>,
    body: Seq<u8>,
)
    ensures
        ({
            let store = CachePutView { file, typepath: typepath_of(file), content_type };
            let after = written(directory, Some(store), body);
            let read = read_entry(after, file, typepath_of(file));
            &&& read matches CacheReadView::Hit { body: b, content_type: recorded }
            &&& b == body
            &&& recorded_type(recorded, typepath_of(file)) == content_type
        }),
{
    lemma_typepath_is_a_record(file);
    vstd::utf8::encode_utf8_valid_utf8(content_type);
    vstd::utf8::encode_utf8_decode_utf8(content_type);
}

/// An object whose record was never written, as after a crash between the
/// two writes, is still read: with its body, and with a content type guessed
/// by its extension.
pub proof fn lemma_half_written_entry_is_read(
    directory: Directory,
    file: Seq<char>,
    body: Seq<u8>,
)
    requires
        !directory.contains_key(typepath_of(file)),
    ensures
        ({
            let read = read_entry(directory.insert(file, body), file, typepath_of(file));
            &&& read == CacheReadView::Hit { body, content_type: None }
            &&& crate::gh::router::cached_object(read, typepath_of(file)) == Some(
                (body, crate::util::sniffed_type(typepath_of(file))),
            )
        }),
{
    lemma_typepath_is_a_record(file);
}

/// A request for a valid path is answered a second time from the cache
/// alone: the second answer has the body and the content type of the
/// first, and upstream receives no request for it. This holds of every
/// request that finds its object in the cache or leaves it there, and of
/// every request that is turned away for its token.
pub proof fn lemma_second_request_is_served_from_cache(
    file_max: u64,
    token: Option<Seq<char>>,
    request: InboundView,
    world: World,
)
    requires
        answers_in_kind(world),
        crate::gh::extract::is_valid_path(request.path),
        is_admitted(token, request) ==> serve(
            file_max,
            token,
            request,
            world,
        )->0.world.directory.contains_key(target_of(trimmed(request.path)).file),
    ensures
        ({
            let first = serve(file_max, token, request, world)->0;
            let second = serve(file_max, token, request, first.world);
            &&& second is Some
            &&& second->0.response.body == first.response.body
            &&& second->0.response.content_type == first.response.content_type
            &&& second->0.world.requests == first.world.requests
            &&& second->0.world.directory == first.world.directory
        }),
{
    reveal_with_fuel(run, 5);
    let target = target_of(trimmed(request.path));
    let url = upstream_url(target.path);
    lemma_typepath_is_a_record(target.file);
    assert((world.head)(url) is Head || (world.head)(url) is HeadFailed);
    assert((world.get)(url) is Get || (world.get)(url) is GetFailed);
    if is_admitted(token, request) && !world.directory.contains_key(target.file) {
        let got = (world.get)(url);
        match got {
            EventView::Get { status, content_type, body } => {
                let declared = crate::util::declared_type(content_type);
                vstd::utf8::encode_utf8_valid_utf8(declared);
                vstd::utf8::encode_utf8_decode_utf8(declared);
            },
            _ => {},
        }
    }
}

/// Where upstream declares more bytes for an object than the limit, no
/// request for it changes the cache directory, so no file is ever created
/// under its key. A request that is admitted and does not find the object
/// in the cache is refused as too large, and upstream receives the `HEAD`
/// request and no other.
pub proof fn lemma_oversized_object_is_refused(
    file_max: u64,
    token: Option<Seq<char>>,
    request: InboundView,
    world: World,
)
    requires
        (world.head)(upstream_url(trimmed(request.path))) matches EventView::Head {
            content_length: Some(length),
            ..
        } && length > file_max,
    ensures
        ({
            let served = serve(file_max, token, request, world);
            let file = target_of(trimmed(request.path)).file;
            &&& served is Some
            &&& served->0.world.directory == world.directory
            &&& is_admitted(token, request) && !world.directory.contains_key(file) ==> {
                &&& served->0.response.status == STATUS_PAYLOAD_TOO_LARGE
                &&& served->0.world.requests == world.requests + 1
                &&& !served->0.world.directory.contains_key(file)
            }
        }),
{
    reveal_with_fuel(run, 5);
}

/// A request that finds its object in the cache is answered with it at
/// once: with status 200, without a request to upstream and without a
/// change to the cache directory.
pub proof fn lemma_hit_is_served_at_once(
    file_max: u64,
    token: Option<Seq<char>>,
    request: InboundView,
    world: World,
)
    requires
        is_admitted(token, request),
        world.directory.contains_key(target_of(trimmed(request.path)).file),
    ensures
        ({
            let served = serve(file_max, token, request, world);
            let target = target_of(trimmed(request.path));
            &&& served is Some
            &&& served->0.response.status == crate::error::STATUS_OK
            &&& served->0.response.body == world.directory[target.file]
            &&& served->0.world == world
        }),
{
    reveal_with_fuel(run, 5);
}

/// Where upstream declares no length for an object that is not in the
/// cache, or cannot be reached, the request ends in an internal error
/// after the `HEAD` request alone, and nothing is written to the cache.
pub proof fn lemma_unknown_length_is_an_error(
    file_max: u64,
    token: Option<Seq<char>>,
    request: InboundView,
    world: World,
)
    requires
        is_admitted(token, request),
        !world.directory.contains_key(target_of(trimmed(request.path)).file),
        (world.head)(upstream_url(trimmed(request.path))) is HeadFailed || (world.head)(
            upstream_url(trimmed(request.path)),
        ) matches EventView::Head { content_length: None, .. },
    ensures
        ({
            let served = serve(file_max, token, request, world);
            &&& served is Some
            &&& served->0.response.status == crate::error::STATUS_INTERNAL_SERVER_ERROR
            &&& served->0.world.directory == world.directory
            &&& served->0.world.requests == world.requests + 1
        }),
{
    reveal_with_fuel(run, 5);
}

/// A request that is not admitted, for its path or for its token, is
/// answered as not found without a look at the cache or at upstream.
pub proof fn lemma_rejected_request_is_not_found(
    file_max: u64,
    token: Option<Seq<char>>,
    request: InboundView,
    world: World,
)
    requires
        !is_admitted(token, request),
    ensures
        ({
            let served = serve(file_max, token, request, world);
            &&& served is Some
            &&& served->0.response == crate::error::empty_response(crate::error::STATUS_NOT_FOUND)
            &&& served->0.world == world
        }),
{
    reveal_with_fuel(run, 5);
}

/// Only an answer of the success class that came from upstream changes the
/// cache directory, and it changes nothing but the files of its own
/// object.
pub proof fn lemma_only_success_is_cached(
    file_max: u64,
    token: Option<Seq<char>>,
    request: InboundView,
    world: World,
    path: Seq<char>,
)
    requires
        answers_in_kind(world),
    ensures
        ({
            let served = serve(file_max, token, request, world)->0;
            let target = target_of(trimmed(request.path));
            &&& served.world.directory != world.directory ==> spec_is_success(
                served.response.status,
            ) && served.world.requests == world.requests + 2
            &&& path != target.file && path != target.typepath ==> (
            served.world.directory.contains_key(path) == world.directory.contains_key(path)
                && served.world.directory[path] == world.directory[path])
        }),
{
    reveal_with_fuel(run, 5);
    let target = target_of(trimmed(request.path));
    let url = upstream_url(target.path);
    assert((world.head)(url) is Head || (world.head)(url) is HeadFailed);
    assert((world.get)(url) is Get || (world.get)(url) is GetFailed);
}

/// After a sweep at `now`, no file is left of an object that had outlived
/// its time to live: neither the object nor the record of its content
/// type.
pub proof fn lemma_sweep_deletes_expired_files(
    directory: Directory,
    entries: Seq<DirEntryView>,
    now: i128,
    ttl: u32,
    max: u64,
    i: int,
)
    requires
        0 <= i < entries.len(),
        cache_file_of(entries[i]) is Some,
        is_expired(cache_file_of(entries[i])->0.created, now, ttl),
    ensures
        ({
            let after = swept(directory, sweep_plan(entries, now, ttl, max));
            &&& !after.contains_key(entries[i].name)
            &&& !after.contains_key(typepath_of(entries[i].name))
        }),
{
    crate::task::lemma_sweep_removes_expired(entries, now, ttl, max, i);
    let plan = sweep_plan(entries, now, ttl, max);
    assert(plans_removal(plan, entries[i].name));
}

/// A sweep leaves alone every file that is neither an entry it removes nor
/// the record of one.
pub proof fn lemma_sweep_keeps_other_files(
    directory: Directory,
    plan: SweepPlanView,
    path: Seq<char>,
)
    requires
        directory.contains_key(path),
        forall|name: Seq<char>|
            #[trigger] plans_removal(plan, name) ==> path != name && path != typepath_of(name),
    ensures
        swept(directory, plan).contains_key(path),
        swept(directory, plan)[path] == directory[path],
{
}

} // verus!
