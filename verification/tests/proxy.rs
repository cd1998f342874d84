use std::collections::HashMap;

use simple_gh::config::Config;
use simple_gh::error::Response;
use simple_gh::gh::extract::GHPath;
use simple_gh::gh::fetch::FetchError;
use simple_gh::gh::router::{
    after_cache, after_get, after_head, begin, get_gh, target, too_large, Action, CacheRead, Event,
    Fetched, Head, Inbound, ProxyState, Target,
};

const MIB_24: u64 = 25_165_824;

/// A cache directory and an upstream host in memory.
struct World {
    files: HashMap<String, Vec<u8>>,
    head: Result<Head, FetchError>,
    get: Result<Fetched, FetchError>,
    requests: Vec<String>,
}

impl World {
    fn new(head: Result<Head, FetchError>, get: Result<Fetched, FetchError>) -> World {
        World { files: HashMap::new(), head, get, requests: Vec::new() }
    }

    fn serve(&mut self, config: &Config, path: &str, query: Option<&str>) -> Response {
        let mut state = ProxyState::Start;
        let mut event = Event::Request(Inbound {
            path: path.to_string(),
            query: query.map(|q| q.to_string()),
        });
        loop {
            let (next, action) = get_gh(config, state, event).unwrap();
            state = next;
            event = match action {
                Action::ReadCache { file, typepath } => Event::Cache(match self.files.get(&file) {
                    Some(body) => CacheRead::Hit {
                        body: body.clone(),
                        content_type: self.files.get(&typepath).cloned(),
                    },
                    None => CacheRead::Miss,
                }),
                Action::Head { url } => {
                    self.requests.push(format!("HEAD {}", url));
                    Event::Head(self.head.clone())
                }
                Action::Get { url } => {
                    self.requests.push(format!("GET {}", url));
                    Event::Get(self.get.clone())
                }
                Action::Respond { response, store } => {
                    assert!(matches!(state, ProxyState::Done));
                    if let Some(store) = store {
                        self.files.insert(store.file, response.body.clone());
                        self.files.insert(store.typepath, store.content_type.into_bytes());
                    }
                    return response;
                }
            };
        }
    }
}

fn config(token: Option<&str>) -> Config {
    let mut config = Config::default();
    config.file_max = MIB_24;
    config.token = token.map(|t| t.to_string());
    config
}

fn head(length: Option<u64>) -> Result<Head, FetchError> {
    Ok(Head { content_length: length, headers: "{\"etag\": \"abc\"}".to_string() })
}

fn hello() -> Result<Fetched, FetchError> {
    Ok(Fetched {
        status: 200,
        content_type: Some("text/plain; charset=utf-8".to_string()),
        body: b"Hello World!".to_vec(),
    })
}

fn readme_target() -> Target {
    target(GHPath("octocat/Hello-World/master/README".to_string()))
}

#[test]
fn miss_then_hit_scenario() {
    let config = config(None);
    let mut world = World::new(head(Some(120)), hello());
    let first = world.serve(&config, "gh/octocat/Hello-World/master/README", None);
    assert_eq!(first.status, 200);
    assert_eq!(first.body, b"Hello World!");
    assert_eq!(first.content_type.as_deref(), Some("text/plain; charset=utf-8"));
    assert_eq!(
        world.requests,
        vec![
            "HEAD https://raw.githubusercontent.com/gh/octocat/Hello-World/master/README",
            "GET https://raw.githubusercontent.com/gh/octocat/Hello-World/master/README",
        ]
    );
    assert_eq!(world.files.len(), 2);
    assert_eq!(world.files["gh_octocat_Hello-World_master_README"], b"Hello World!");
    assert_eq!(
        world.files["gh_octocat_Hello-World_master_README..type"],
        b"text/plain; charset=utf-8"
    );

    world.requests.clear();
    let second = world.serve(&config, "gh/octocat/Hello-World/master/README", None);
    assert_eq!(second.status, 200);
    assert_eq!(second.body, first.body);
    assert_eq!(second.content_type, first.content_type);
    assert!(world.requests.is_empty());
}

#[test]
fn miss_then_hit_behind_the_mount_point() {
    let config = config(None);
    let mut world = World::new(head(Some(120)), hello());
    let first = world.serve(&config, "/octocat/Hello-World/master/README", None);
    assert_eq!(first.status, 200);
    assert_eq!(world.requests.len(), 2);
    assert_eq!(
        world.requests[1],
        "GET https://raw.githubusercontent.com/octocat/Hello-World/master/README"
    );
    world.requests.clear();
    let second = world.serve(&config, "/octocat/Hello-World/master/README/", None);
    assert_eq!(second.body, b"Hello World!");
    assert_eq!(second.content_type.as_deref(), Some("text/plain; charset=utf-8"));
    assert!(world.requests.is_empty());
}

#[test]
fn oversized_object_scenario() {
    let config = config(None);
    let mut world = World::new(head(Some(30_000_000)), hello());
    let response = world.serve(&config, "gh/octocat/Hello-World/master/README", None);
    assert_eq!(response.status, 413);
    assert_eq!(response.body, b"file size: 28.61 MiB > 24.00 MiB");
    assert_eq!(response.content_type.as_deref(), Some("text/plain; charset=utf-8"));
    assert!(world.files.is_empty());
    assert_eq!(world.requests.len(), 1);
    assert!(world.requests[0].starts_with("HEAD "));
}

#[test]
fn object_of_exactly_the_limit_is_fetched() {
    let config = config(None);
    let mut world = World::new(head(Some(MIB_24)), hello());
    let response = world.serve(&config, "a/b", None);
    assert_eq!(response.status, 200);
    assert_eq!(world.requests.len(), 2);
    let mut world = World::new(head(Some(MIB_24 + 1)), hello());
    let response = world.serve(&config, "a/b", None);
    assert_eq!(response.status, 413);
    assert_eq!(response.body, b"file size: 24.00 MiB > 24.00 MiB");
}

#[test]
fn missing_token_scenario() {
    let config = config(Some("secret"));
    let mut world = World::new(head(Some(120)), hello());
    let valid = world.serve(&config, "gh/octocat/Hello-World/master/README", None);
    assert_eq!(valid.status, 404);
    assert!(valid.body.is_empty());
    assert_eq!(valid.content_type, None);
    let invalid = world.serve(&config, "", None);
    assert_eq!(invalid.status, 404);
    let other = world.serve(&config, "gh/octocat/Hello-World/master/README", Some("x=1"));
    assert_eq!(other.status, 404);
    assert!(world.requests.is_empty());
    assert!(world.files.is_empty());
}

#[test]
fn wrong_token_is_not_found_and_right_token_passes() {
    let config = config(Some("secret"));
    let mut world = World::new(head(Some(120)), hello());
    let wrong = world.serve(&config, "a/b/c", Some("token=guess"));
    assert_eq!(wrong.status, 404);
    assert!(world.requests.is_empty());
    let right = world.serve(&config, "a/b/c", Some("token=secret"));
    assert_eq!(right.status, 200);
    assert_eq!(right.body, b"Hello World!");
}

#[test]
fn token_in_query_is_ignored_where_none_is_configured() {
    let config = config(None);
    let mut world = World::new(head(Some(120)), hello());
    let response = world.serve(&config, "a/b/c", Some("token=anything"));
    assert_eq!(response.status, 200);
}

#[test]
fn short_paths_are_not_found_before_any_work() {
    let config = config(None);
    let mut world = World::new(head(Some(120)), hello());
    for path in ["", "/", "octocat", "/octocat/"] {
        let response = world.serve(&config, path, None);
        assert_eq!(response.status, 404);
        assert!(response.body.is_empty());
    }
    assert!(world.requests.is_empty());
    assert!(world.files.is_empty());
}

#[test]
fn head_failure_is_an_internal_error() {
    let config = config(None);
    let mut world = World::new(Err(FetchError::Upstream("dns error".to_string())), hello());
    let response = world.serve(&config, "a/b/c", None);
    assert_eq!(response.status, 500);
    assert_eq!(response.body, b"dns error");
    assert_eq!(world.requests.len(), 1);
    assert!(world.files.is_empty());
}

#[test]
fn missing_content_length_is_an_internal_error() {
    let config = config(None);
    let mut world = World::new(head(None), hello());
    let response = world.serve(&config, "a/b/c", None);
    assert_eq!(response.status, 500);
    assert_eq!(response.body, b"{\"etag\": \"abc\"}");
    assert_eq!(world.requests.len(), 1);
    assert!(world.files.is_empty());
}

#[test]
fn get_failure_is_an_internal_error() {
    let config = config(None);
    let mut world = World::new(head(Some(1)), Err(FetchError::Upstream("timed out".to_string())));
    let response = world.serve(&config, "a/b/c", None);
    assert_eq!(response.status, 500);
    assert_eq!(response.body, b"timed out");
    assert_eq!(world.requests.len(), 2);
    assert!(world.files.is_empty());
}

#[test]
fn upstream_error_is_forwarded_and_not_cached() {
    let config = config(None);
    let not_found = Ok(Fetched {
        status: 404,
        content_type: Some("text/plain".to_string()),
        body: b"404: Not Found".to_vec(),
    });
    let mut world = World::new(head(Some(14)), not_found);
    let response = world.serve(&config, "a/b/c", None);
    assert_eq!(response.status, 404);
    assert_eq!(response.body, b"404: Not Found");
    assert_eq!(response.content_type.as_deref(), Some("text/plain"));
    assert!(world.files.is_empty());
    world.requests.clear();
    world.serve(&config, "a/b/c", None);
    assert_eq!(world.requests.len(), 2);
}

#[test]
fn upstream_without_content_type_is_octet_stream() {
    let config = config(None);
    let bytes = Ok(Fetched { status: 200, content_type: None, body: vec![0, 1, 2] });
    let mut world = World::new(head(Some(3)), bytes);
    let first = world.serve(&config, "a/b/c.bin", None);
    assert_eq!(first.content_type.as_deref(), Some("application/octet-stream"));
    assert_eq!(world.files["a_b_c.bin.type"], b"application/octet-stream");
    let second = world.serve(&config, "a/b/c.bin", None);
    assert_eq!(second.content_type, first.content_type);
    assert_eq!(second.body, vec![0, 1, 2]);
}

#[test]
fn second_answer_is_ok_whatever_the_first_success_was() {
    let config = config(None);
    let created = Ok(Fetched { status: 203, content_type: None, body: vec![9] });
    let mut world = World::new(head(Some(1)), created);
    assert_eq!(world.serve(&config, "a/b", None).status, 203);
    assert_eq!(world.serve(&config, "a/b", None).status, 200);
}

#[test]
fn hit_without_record_is_sniffed() {
    let config = config(None);
    let mut world = World::new(head(Some(120)), hello());
    world.files.insert("a_b_c.json".to_string(), b"{}".to_vec());
    let response = world.serve(&config, "a/b/c.json", None);
    assert_eq!(response.status, 200);
    assert_eq!(response.body, b"{}");
    assert_eq!(response.content_type.as_deref(), Some("application/json"));
    assert!(world.requests.is_empty());
}

#[test]
fn failed_cache_read_falls_back_to_upstream() {
    let (state, action) = after_cache(readme_target(), CacheRead::Failed);
    assert!(matches!(state, ProxyState::HeadUpstream(_)));
    match action {
        Action::Head { url } => {
            assert_eq!(url, "https://raw.githubusercontent.com/octocat/Hello-World/master/README")
        }
        _ => panic!("expected a HEAD request"),
    }
}

#[test]
fn begin_names_the_cache_files() {
    let request = Inbound { path: "/octocat/Hello-World/master/README.md".to_string(), query: None };
    let (state, action) = begin(&config(None), request);
    match state {
        ProxyState::CheckCache(target) => {
            assert_eq!(target.path, "octocat/Hello-World/master/README.md");
            assert_eq!(target.file, "octocat_Hello-World_master_README.md");
            assert_eq!(target.typepath, "octocat_Hello-World_master_README.md.type");
        }
        _ => panic!("expected a cache read"),
    }
    match action {
        Action::ReadCache { file, typepath } => {
            assert_eq!(file, "octocat_Hello-World_master_README.md");
            assert_eq!(typepath, "octocat_Hello-World_master_README.md.type");
        }
        _ => panic!("expected a cache read"),
    }
}

#[test]
fn steps_out_of_turn_are_refused() {
    let config = config(None);
    assert!(get_gh(&config, ProxyState::Start, Event::Cache(CacheRead::Miss)).is_none());
    assert!(get_gh(&config, ProxyState::Start, Event::Head(head(Some(1)))).is_none());
    assert!(get_gh(&config, ProxyState::CheckCache(readme_target()), Event::Get(hello())).is_none());
    assert!(
        get_gh(&config, ProxyState::HeadUpstream(readme_target()), Event::Get(hello())).is_none()
    );
    assert!(get_gh(&config, ProxyState::GetUpstream(readme_target()), Event::Head(head(Some(1))))
        .is_none());
    assert!(get_gh(&config, ProxyState::Done, Event::Cache(CacheRead::Miss)).is_none());
}

#[test]
fn after_head_decides_by_the_declared_length() {
    let (state, action) = after_head(100, readme_target(), head(Some(100)));
    assert!(matches!(state, ProxyState::GetUpstream(_)));
    assert!(matches!(action, Action::Get { .. }));
    let (state, action) = after_head(100, readme_target(), head(Some(101)));
    assert!(matches!(state, ProxyState::Done));
    match action {
        Action::Respond { response, store } => {
            assert_eq!(response.status, 413);
            assert_eq!(response.body, b"file size: 101 B > 100 B");
            assert!(store.is_none());
        }
        _ => panic!("expected an answer"),
    }
}

#[test]
fn after_get_stores_success_only() {
    let (_, action) = after_get(readme_target(), hello());
    match action {
        Action::Respond { response, store } => {
            assert_eq!(response.status, 200);
            let store = store.unwrap();
            assert_eq!(store.file, "octocat_Hello-World_master_README");
            assert_eq!(store.typepath, "octocat_Hello-World_master_README..type");
            assert_eq!(store.content_type, "text/plain; charset=utf-8");
        }
        _ => panic!("expected an answer"),
    }
    let moved = Ok(Fetched { status: 301, content_type: None, body: Vec::new() });
    let (_, action) = after_get(readme_target(), moved);
    match action {
        Action::Respond { response, store } => {
            assert_eq!(response.status, 301);
            assert!(store.is_none());
        }
        _ => panic!("expected an answer"),
    }
}

#[test]
fn too_large_names_both_sizes() {
    let error = too_large("28.61 MiB", "24.00 MiB");
    assert_eq!(error.status, 413);
    assert_eq!(error.reason, "file size: 28.61 MiB > 24.00 MiB");
}
