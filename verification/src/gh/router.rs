//! How a request is answered, step by step: from the cache where the object
//! is there, else from upstream, with the object written to the cache on the
//! way.
//!
//! The handler does no reading, writing or fetching itself. Each step takes
//! what the last action came to and says what to do next.

use vstd::prelude::*;
use vstd::string::*;
use crate::config::Config;
use crate::error::{
    empty_response, error_response, is_success, spec_is_success, CustomError, Response,
    ResponseView, STATUS_INTERNAL_SERVER_ERROR, STATUS_NOT_FOUND, STATUS_OK,
    STATUS_PAYLOAD_TOO_LARGE,
};
use crate::gh::extract::{is_valid_path, trimmed, GHPath};
use crate::gh::fetch::{upstream_url, FetchError, Request};
use crate::gh::middleware::{carries_token, Token};
use crate::util::{
    cache_key, content_type_typepath, content_type_upstream, declared_type, flattened,
    recorded_type, typepath, typepath_of,
};

verus! {

/// The size of `bytes` bytes for a reader, in binary units: a number with
/// two decimals and a unit such as `MiB`, or a whole number of `B`.
pub uninterp spec fn size_text(bytes: u64) -> Seq<char>;

/// Renders a size in binary units.
///
/// Calls `byte_unit::Byte::from_bytes`, `Byte::get_appropriate_unit` with
/// binary multiples, and renders that with `to_string`. The result is what
/// these give for `bytes`, named `size_text(bytes)`.
#[verifier::external_body]
pub(crate) fn human_size(bytes: u64) -> (text: String)
    ensures
        text@ == size_text(bytes),
{
    byte_unit::Byte::from_bytes(bytes).get_appropriate_unit(true).to_string()
}

/// A request as the server hands it over: the path behind the mount point
/// of the route, and the query string if there is one.
#[derive(Debug, Clone)]
pub struct Inbound {
    pub path: String,
    pub query: Option<String>,
}

/// A request over sequences.
pub struct InboundView {
    pub path: Seq<char>,
    pub query: Option<Seq<char>>,
}

impl View for Inbound {
    type V = InboundView;

    open spec fn view(&self) -> InboundView {
        InboundView { path: self.path@, query: self.query.deep_view() }
    }
}

/// What reading a cache entry came to.
#[derive(Debug, Clone)]
pub enum CacheRead {
    /// The object is there. `content_type` holds the bytes of the record of
    /// its content type, or `None` where the record could not be read.
    Hit { body: Vec<u8>, content_type: Option<Vec<u8>> },
    /// There is no such object.
    Miss,
    /// The object could not be read for another reason.
    Failed,
}

/// A cache read over sequences.
pub enum CacheReadView {
    Hit { body: Seq<u8>, content_type: Option<Seq<u8>> },
    Miss,
    Failed,
}

impl View for CacheRead {
    type V = CacheReadView;

    open spec fn view(&self) -> CacheReadView {
        match self {
            CacheRead::Hit { body, content_type } => CacheReadView::Hit {
                body: body@,
                content_type: match content_type {
                    Some(bytes) => Some(bytes@),
                    None => None,
                },
            },
            CacheRead::Miss => CacheReadView::Miss,
            CacheRead::Failed => CacheReadView::Failed,
        }
    }
}

/// What upstream answered to a `HEAD` request: the length it declares, and
/// its headers rendered for a reader.
#[derive(Debug, Clone)]
pub struct Head {
    pub content_length: Option<u64>,
    pub headers: String,
}

/// What upstream answered to a `GET` request.
#[derive(Debug, Clone)]
pub struct Fetched {
    pub status: u16,
    pub content_type: Option<String>,
    pub body: Vec<u8>,
}

/// What happened since the last step.
#[derive(Debug)]
pub enum Event {
    Request(Inbound),
    Cache(CacheRead),
    Head(Result<Head, FetchError>),
    Get(Result<Fetched, FetchError>),
}

/// An event over sequences.
pub enum EventView {
    Request(InboundView),
    Cache(CacheReadView),
    HeadFailed(Seq<char>),
    Head { content_length: Option<u64>, headers: Seq<char> },
    GetFailed(Seq<char>),
    Get { status: u16, content_type: Option<Seq<char>>, body: Seq<u8> },
}

impl View for Event {
    type V = EventView;

    open spec fn view(&self) -> EventView {
        match self {
            Event::Request(request) => EventView::Request(request@),
            Event::Cache(read) => EventView::Cache(read@),
            Event::Head(Ok(head)) => EventView::Head {
                content_length: head.content_length,
                headers: head.headers@,
            },
            Event::Head(Err(failure)) => EventView::HeadFailed(failure@),
            Event::Get(Ok(fetched)) => EventView::Get {
                status: fetched.status,
                content_type: fetched.content_type.deep_view(),
                body: fetched.body@,
            },
            Event::Get(Err(failure)) => EventView::GetFailed(failure@),
        }
    }
}

/// The object that a request is for: its path upstream, the name of its
/// file in the cache directory, and the name of the record of its content
/// type.
#[derive(Debug, Clone)]
pub struct Target {
    pub path: String,
    pub file: String,
    pub typepath: String,
}

/// A target over sequences.
pub struct TargetView {
    pub path: Seq<char>,
    pub file: Seq<char>,
    pub typepath: Seq<char>,
}

impl View for Target {
    type V = TargetView;

    open spec fn view(&self) -> TargetView {
        TargetView { path: self.path@, file: self.file@, typepath: self.typepath@ }
    }
}

/// The target of a request for `path`, a path without slashes at either
/// end.
pub open spec fn target_of(path: Seq<char>) -> TargetView {
    TargetView { path, file: flattened(path), typepath: typepath_of(flattened(path)) }
}

/// Where the handling of a request stands between two steps.
#[derive(Debug, Clone)]
pub enum ProxyState {
    /// Nothing has happened yet.
    Start,
    /// The cache entry is being read.
    CheckCache(Target),
    /// The `HEAD` request to upstream is under way.
    HeadUpstream(Target),
    /// The `GET` request to upstream is under way.
    GetUpstream(Target),
    /// The request has been answered.
    Done,
}

/// A state over sequences.
pub enum ProxyStateView {
    Start,
    CheckCache(TargetView),
    HeadUpstream(TargetView),
    GetUpstream(TargetView),
    Done,
}

impl View for ProxyState {
    type V = ProxyStateView;

    open spec fn view(&self) -> ProxyStateView {
        match self {
            ProxyState::Start => ProxyStateView::Start,
            ProxyState::CheckCache(target) => ProxyStateView::CheckCache(target@),
            ProxyState::HeadUpstream(target) => ProxyStateView::HeadUpstream(target@),
            ProxyState::GetUpstream(target) => ProxyStateView::GetUpstream(target@),
            ProxyState::Done => ProxyStateView::Done,
        }
    }
}

/// Where to write an answer through to the cache: the body goes to `file`;
/// if that was written, `content_type` goes to `typepath`.
#[derive(Debug, Clone)]
pub struct CachePut {
    pub file: String,
    pub typepath: String,
    pub content_type: String,
}

/// A write to the cache over sequences.
pub struct CachePutView {
    pub file: Seq<char>,
    pub typepath: Seq<char>,
    pub content_type: Seq<char>,
}

impl View for CachePut {
    type V = CachePutView;

    open spec fn view(&self) -> CachePutView {
        CachePutView {
            file: self.file@,
            typepath: self.typepath@,
            content_type: self.content_type@,
        }
    }
}

/// What the program that runs the handler does next.
#[derive(Debug, Clone)]
pub enum Action {
    /// Read `file` and `typepath` from the cache directory and report
    /// `Event::Cache`.
    ReadCache { file: String, typepath: String },
    /// Send a `HEAD` request to `url` and report `Event::Head`.
    Head { url: String },
    /// Send a `GET` request to `url` and report `Event::Get`.
    Get { url: String },
    /// Write the body of `response` through to the cache as `store` says,
    /// if it says so, and answer with `response` whether or not the writes
    /// succeed.
    Respond { response: Response, store: Option<CachePut> },
}

/// An action over sequences.
pub enum ActionView {
    ReadCache { file: Seq<char>, typepath: Seq<char> },
    Head { url: Seq<char> },
    Get { url: Seq<char> },
    Respond { response: ResponseView, store: Option<CachePutView> },
}

impl View for Action {
    type V = ActionView;

    open spec fn view(&self) -> ActionView {
        match self {
            Action::ReadCache { file, typepath } => ActionView::ReadCache {
                file: file@,
                typepath: typepath@,
            },
            Action::Head { url } => ActionView::Head { url: url@ },
            Action::Get { url } => ActionView::Get { url: url@ },
            Action::Respond { response, store } => ActionView::Respond {
                response: response@,
                store: match store {
                    Some(s) => Some(s@),
                    None => None,
                },
            },
        }
    }
}

/// An answer that ends the request and writes nothing to the cache.
pub open spec fn respond(response: ResponseView) -> (ProxyStateView, ActionView) {
    (ProxyStateView::Done, ActionView::Respond { response, store: None })
}

/// Whether a request passes the checks on its path and its token.
pub open spec fn is_admitted(token: Option<Seq<char>>, request: InboundView) -> bool {
    &&& is_valid_path(request.path)
    &&& token matches Some(t) ==> carries_token(request.query, t)
}

/// The first step: a request that fails the check of its path or of its
/// token is answered as not found; for every other one the cache is read.
pub open spec fn on_request(token: Option<Seq<char>>, request: InboundView) -> (
    ProxyStateView,
    ActionView,
) {
    if is_admitted(token, request) {
        let target = target_of(trimmed(request.path));
        (
            ProxyStateView::CheckCache(target),
            ActionView::ReadCache { file: target.file, typepath: target.typepath },
        )
    } else {
        respond(empty_response(STATUS_NOT_FOUND))
    }
}

/// The object that a read of the cache found, with its content type: the
/// type on record, or a guess where the record `typepath` is missing or
/// is no text. A read that failed counts as a miss.
pub open spec fn cached_object(read: CacheReadView, typepath: Seq<char>) -> Option<
    (Seq<u8>, Seq<char>),
> {
    match read {
        CacheReadView::Hit { body, content_type } => Some(
            (body, recorded_type(content_type, typepath)),
        ),
        _ => None,
    }
}

/// After the cache was read: an object that is there is the answer, with
/// the content type on record; for every other outcome upstream is asked
/// for the headers of the object.
pub open spec fn on_cache(target: TargetView, read: CacheReadView) -> (
    ProxyStateView,
    ActionView,
) {
    match cached_object(read, target.typepath) {
        Some((body, content_type)) => respond(
            ResponseView { status: STATUS_OK, content_type: Some(content_type), body },
        ),
        None => (
            ProxyStateView::HeadUpstream(target),
            ActionView::Head { url: upstream_url(target.path) },
        ),
    }
}

/// The text of the error for an object of `declared` bytes under a limit
/// of `limit` bytes, given both sizes as rendered for a reader.
pub open spec fn too_large_text(declared: Seq<char>, limit: Seq<char>) -> Seq<char> {
    "file size: "@ + declared + " > "@ + limit
}

/// After upstream sent its headers, or failed to: a failure is an internal
/// error with its description; headers without a length are an internal
/// error that shows the headers; a length over `file_max` is refused as too
/// large, before any byte of the object is fetched; otherwise the object is
/// fetched.
pub open spec fn on_head(file_max: u64, target: TargetView, event: EventView) -> (
    ProxyStateView,
    ActionView,
)
    recommends
        event is Head || event is HeadFailed,
{
    match event {
        EventView::Head { content_length: Some(length), headers } => if length > file_max {
            respond(
                error_response(
                    too_large_text(size_text(length), size_text(file_max)),
                    STATUS_PAYLOAD_TOO_LARGE,
                ),
            )
        } else {
            (ProxyStateView::GetUpstream(target), ActionView::Get { url: upstream_url(target.path) })
        },
        EventView::Head { content_length: None, headers } => respond(
            error_response(headers, STATUS_INTERNAL_SERVER_ERROR),
        ),
        EventView::HeadFailed(text) => respond(error_response(text, STATUS_INTERNAL_SERVER_ERROR)),
        _ => arbitrary(),
    }
}

/// After upstream sent the object, or failed to: a failure is an internal
/// error with its description; otherwise the answer is what upstream sent,
/// under its status and with the content type it declared, and an answer
/// of the success class is written through to the cache.
pub open spec fn on_get(target: TargetView, event: EventView) -> (ProxyStateView, ActionView)
    recommends
        event is Get || event is GetFailed,
{
    match event {
        EventView::Get { status, content_type, body } => (
            ProxyStateView::Done,
            ActionView::Respond {
                response: ResponseView {
                    status,
                    content_type: Some(declared_type(content_type)),
                    body,
                },
                store: if spec_is_success(status) {
                    Some(
                        CachePutView {
                            file: target.file,
                            typepath: target.typepath,
                            content_type: declared_type(content_type),
                        },
                    )
                } else {
                    None
                },
            },
        ),
        EventView::GetFailed(text) => respond(error_response(text, STATUS_INTERNAL_SERVER_ERROR)),
        _ => arbitrary(),
    }
}

/// One step of the handler under a size limit of `file_max` bytes and the
/// token `token`: the state and the action that follow `event` in `state`.
/// `None` where `event` cannot happen in `state`.
pub open spec fn proxy_step(
    file_max: u64,
    token: Option<Seq<char>>,
    state: ProxyStateView,
    event: EventView,
) -> Option<(ProxyStateView, ActionView)> {
    match (state, event) {
        (ProxyStateView::Start, EventView::Request(request)) => Some(on_request(token, request)),
        (ProxyStateView::CheckCache(target), EventView::Cache(read)) => Some(
            on_cache(target, read),
        ),
        (ProxyStateView::HeadUpstream(target), EventView::Head { .. }) => Some(
            on_head(file_max, target, event),
        ),
        (ProxyStateView::HeadUpstream(target), EventView::HeadFailed(_)) => Some(
            on_head(file_max, target, event),
        ),
        (ProxyStateView::GetUpstream(target), EventView::Get { .. }) => Some(
            on_get(target, event),
        ),
        (ProxyStateView::GetUpstream(target), EventView::GetFailed(_)) => Some(
            on_get(target, event),
        ),
        _ => None,
    }
}

/// Whether a state is one that the handling of a request can be in: the
/// target it holds, if any, is the target of a valid path.
pub open spec fn is_reachable(state: ProxyStateView) -> bool {
    match state {
        ProxyStateView::CheckCache(target) | ProxyStateView::HeadUpstream(target)
        | ProxyStateView::GetUpstream(target) => {
            &&& target == target_of(target.path)
            &&& is_valid_path(target.path)
            &&& trimmed(target.path) == target.path
        },
        _ => true,
    }
}

/// Every step leads from a state that the handling of a request can be in
/// to another such state, and what it writes to the cache goes to the files
/// of the target.
pub proof fn lemma_step_keeps_target(
    file_max: u64,
    token: Option<Seq<char>>,
    state: ProxyStateView,
    event: EventView,
)
    requires
        is_reachable(state),
        proxy_step(file_max, token, state, event) is Some,
    ensures
        ({
            let (next, action) = proxy_step(file_max, token, state, event)->0;
            &&& is_reachable(next)
            &&& action matches ActionView::Respond { store: Some(put), .. } ==> state matches
                ProxyStateView::GetUpstream(target) && put.file == flattened(target.path)
                && put.typepath == typepath_of(put.file)
        }),
{
    match (state, event) {
        (ProxyStateView::Start, EventView::Request(request)) => {
            crate::gh::extract::lemma_trimmed_is_trimmed(request.path);
        },
        _ => {},
    }
}

/// The error that refuses an object for its size, given the declared size
/// and the limit as rendered for a reader.
pub fn too_large(declared: &str, limit: &str) -> (error: CustomError)
    ensures
        error.reason@ == too_large_text(declared@, limit@),
        error.status == STATUS_PAYLOAD_TOO_LARGE,
{
    let mut reason = String::from_str("file size: ");
    reason.append(declared);
    reason.append(" > ");
    reason.append(limit);
    CustomError::new(reason, STATUS_PAYLOAD_TOO_LARGE)
}

/// The target of a request for `path`.
pub fn target(path: GHPath) -> (target: Target)
    ensures
        target@ == target_of(path.0@),
{
    let file = cache_key(path.0.as_str());
    let typepath = typepath(file.as_str());
    Target { path: path.0, file, typepath }
}

/// An answer that ends the request and writes nothing to the cache.
fn finish(response: Response) -> (next: (ProxyState, Action))
    ensures
        (next.0@, next.1@) == respond(response@),
{
    (ProxyState::Done, Action::Respond { response, store: None })
}

/// The first step of a request: checks its path and its token and asks for
/// the cache entry.
pub fn begin(config: &Config, request: Inbound) -> (next: (ProxyState, Action))
    ensures
        (next.0@, next.1@) == on_request(config.token.deep_view(), request@),
{
    let admitted = match &config.token {
        Some(token) => {
            let query = match &request.query {
                Some(q) => Some(q.as_str()),
                None => None,
            };
            Token::new(token.clone()).validate(query).is_ok()
        },
        None => true,
    };
    match GHPath::from_request_parts(request.path.as_str()) {
        Ok(path) => {
            if admitted {
                let target = target(path);
                let action = Action::ReadCache {
                    file: target.file.clone(),
                    typepath: target.typepath.clone(),
                };
                (ProxyState::CheckCache(target), action)
            } else {
                finish(Response::empty(STATUS_NOT_FOUND))
            }
        },
        Err(_) => finish(Response::empty(STATUS_NOT_FOUND)),
    }
}

impl CacheRead {
    /// The object that the read found, with its content type, where
    /// `typepath` names the record of the type.
    pub fn object(self, typepath: &str) -> (found: Option<(Vec<u8>, String)>)
        ensures
            match found {
                Some((body, content_type)) => cached_object(self@, typepath@) == Some(
                    (body@, content_type@),
                ),
                None => cached_object(self@, typepath@) is None,
            },
    {
        match self {
            CacheRead::Hit { body, content_type } => {
                let content_type = content_type_typepath(content_type, typepath);
                Some((body, content_type))
            },
            _ => None,
        }
    }
}

/// The step after the cache was read.
pub fn after_cache(target: Target, read: CacheRead) -> (next: (ProxyState, Action))
    ensures
        (next.0@, next.1@) == on_cache(target@, read@),
{
    match read.object(target.typepath.as_str()) {
        Some((body, content_type)) => {
            finish(Response { status: STATUS_OK, content_type: Some(content_type), body })
        },
        None => {
            let url = Request::new(target.path.as_str()).url;
            (ProxyState::HeadUpstream(target), Action::Head { url })
        },
    }
}

/// The step after upstream sent its headers, or failed to.
pub fn after_head(file_max: u64, target: Target, head: Result<Head, FetchError>) -> (next: (
    ProxyState,
    Action,
))
    ensures
        (next.0@, next.1@) == on_head(file_max, target@, Event::Head(head)@),
{
    let head = match Request::result(head) {
        Ok(head) => head,
        Err(error) => {
            return finish(error.respond_to());
        },
    };
    match head.content_length {
        Some(length) => {
            if length > file_max {
                let declared = human_size(length);
                let limit = human_size(file_max);
                finish(too_large(declared.as_str(), limit.as_str()).respond_to())
            } else {
                let url = Request::new(target.path.as_str()).url;
                (ProxyState::GetUpstream(target), Action::Get { url })
            }
        },
        None => finish(CustomError::reason(head.headers).respond_to()),
    }
}

/// The step after upstream sent the object, or failed to.
pub fn after_get(target: Target, fetched: Result<Fetched, FetchError>) -> (next: (
    ProxyState,
    Action,
))
    ensures
        (next.0@, next.1@) == on_get(target@, Event::Get(fetched)@),
{
    let fetched = match Request::result(fetched) {
        Ok(fetched) => fetched,
        Err(error) => {
            return finish(error.respond_to());
        },
    };
    let content_type = content_type_upstream(fetched.content_type);
    let store = if is_success(fetched.status) {
        Some(
            CachePut {
                file: target.file,
                typepath: target.typepath,
                content_type: content_type.clone(),
            },
        )
    } else {
        None
    };
    let response = Response {
        status: fetched.status,
        content_type: Some(content_type),
        body: fetched.body,
    };
    (ProxyState::Done, Action::Respond { response, store })
}

/// One step of the handling of a request under the settings `config`:
/// takes what happened and says what to do next. The handling begins in
/// `ProxyState::Start` with the request itself and ends with the first
/// `Action::Respond`. `None` where `event` cannot happen in `state`.
pub fn get_gh(config: &Config, state: ProxyState, event: Event) -> (next: Option<
    (ProxyState, Action),
>)
    ensures
        match next {
            Some((s, a)) => proxy_step(
                config.file_max,
                config.token.deep_view(),
                state@,
                event@,
            ) == Some((s@, a@)),
            None => proxy_step(config.file_max, config.token.deep_view(), state@, event@)
                is None,
        },
{
    match state {
        ProxyState::Start => match event {
            Event::Request(request) => Some(begin(config, request)),
            _ => None,
        },
        ProxyState::CheckCache(target) => match event {
            Event::Cache(read) => Some(after_cache(target, read)),
            _ => None,
        },
        ProxyState::HeadUpstream(target) => match event {
            Event::Head(head) => Some(after_head(config.file_max, target, head)),
            _ => None,
        },
        ProxyState::GetUpstream(target) => match event {
            Event::Get(fetched) => Some(after_get(target, fetched)),
            _ => None,
        },
        ProxyState::Done => None,
    }
}

} // verus!
