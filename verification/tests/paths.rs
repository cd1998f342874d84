use simple_gh::gh::extract::{count_slashes, trim_slashes, GHPath, MIN_SEGMENTS};
use simple_gh::gh::fetch::{FetchError, Request};
use simple_gh::gh::guard::{PathError, PathGuard, SegmentError};
use simple_gh::util::{
    cache_key, content_type_sniffed, content_type_typepath, content_type_upstream, extension,
    extension_start, file_stem, find_last_dot, first_of_list, get_ip, get_ua, is_typepath,
    remove_file,
    requested_extension_of, same_text, typepath,
};

#[test]
fn cache_key_flattens_slashes() {
    assert_eq!(cache_key("octocat/Hello-World/master/README"), "octocat_Hello-World_master_README");
    assert_eq!(cache_key("a/b/c.txt"), "a_b_c.txt");
    assert_eq!(cache_key(""), "");
    assert_eq!(cache_key("///"), "___");
    assert_eq!(cache_key("no-slash"), "no-slash");
}

#[test]
fn cache_key_is_stable_and_holds_no_slash() {
    let path = "ä/ö/ü/日本語.md";
    let key = cache_key(path);
    assert_eq!(key, cache_key(path));
    assert!(!key.contains('/'));
    assert_eq!(key.chars().count(), path.chars().count());
    assert_eq!(key, "ä_ö_ü_日本語.md");
}

#[test]
fn cache_key_collides_where_only_separators_differ() {
    assert_eq!(cache_key("a/b_c"), cache_key("a_b/c"));
}

#[test]
fn last_dot_is_found_from_the_end() {
    assert_eq!(find_last_dot("a.b.c"), Some(3));
    assert_eq!(find_last_dot(".hidden"), Some(0));
    assert_eq!(find_last_dot("README"), None);
    assert_eq!(find_last_dot(""), None);
    assert_eq!(find_last_dot("é.x"), Some(1));
}

#[test]
fn extension_follows_the_last_dot() {
    assert_eq!(extension("a_b.txt"), Some("txt".to_string()));
    assert_eq!(extension("a.tar.gz"), Some("gz".to_string()));
    assert_eq!(extension("a."), Some("".to_string()));
    assert_eq!(extension("README"), None);
    assert_eq!(extension(".hidden"), None);
    assert_eq!(extension(".."), None);
    assert_eq!(extension("..."), Some("".to_string()));
    assert_eq!(extension(""), None);
    assert_eq!(extension_start("a_b.txt"), Some(3));
    assert_eq!(extension_start(".."), None);
}

#[test]
fn stem_is_what_stands_before_the_extension() {
    assert_eq!(file_stem("a_b.txt"), "a_b");
    assert_eq!(file_stem("a.tar.gz"), "a.tar");
    assert_eq!(file_stem("README"), "README");
    assert_eq!(file_stem(".hidden"), ".hidden");
    assert_eq!(file_stem(".."), "..");
    assert_eq!(file_stem("a."), "a");
}

#[test]
fn typepath_keeps_the_extension_and_adds_type() {
    assert_eq!(typepath("a_b.txt"), "a_b.txt.type");
    assert_eq!(typepath("a.tar.gz"), "a.tar.gz.type");
    assert_eq!(typepath("octocat_Hello-World_master_README"), "octocat_Hello-World_master_README..type");
    assert_eq!(typepath(".hidden"), ".hidden..type");
    assert_eq!(typepath("a."), "a..type");
    assert_eq!(typepath(""), "..type");
}

#[test]
fn typepath_is_a_sidecar_of_another_name() {
    for name in ["a_b.txt", "README", ".hidden", "a.", "", "x.type"] {
        let record = typepath(name);
        assert_ne!(record, name);
        assert_eq!(extension(&record), Some("type".to_string()));
    }
}

#[test]
fn records_are_told_by_their_extension() {
    assert!(is_typepath("a_b.txt.type"));
    assert!(is_typepath("a_b..type"));
    assert!(is_typepath("x.type"));
    assert!(!is_typepath(".type"));
    assert!(!is_typepath("type"));
    assert!(!is_typepath("a.types"));
    assert!(!is_typepath("a.type."));
    assert!(!is_typepath("a.TYPE"));
    assert!(!is_typepath(""));
}

#[test]
fn requested_extension_is_read_back_from_the_typepath() {
    assert_eq!(requested_extension_of(&typepath("a_b.txt")), Some("txt".to_string()));
    assert_eq!(requested_extension_of(&typepath("a.tar.gz")), Some("gz".to_string()));
    assert_eq!(requested_extension_of(&typepath("README")), Some("".to_string()));
    assert_eq!(requested_extension_of(&typepath("")), None);
}

#[test]
fn remove_file_names_object_and_record() {
    let (object, record) = remove_file("a_b.txt");
    assert_eq!(object, "a_b.txt");
    assert_eq!(record, "a_b.txt.type");
}

#[test]
fn same_text_compares_characters() {
    assert!(same_text("type", "type"));
    assert!(!same_text("type", "Type"));
    assert!(!same_text("type", "types"));
    assert!(same_text("", ""));
}

#[test]
fn content_type_round_trip_text_plain() {
    let record = typepath("a_b");
    let written = "text/plain".to_string().into_bytes();
    assert_eq!(content_type_typepath(Some(written), &record), "text/plain");
}

#[test]
fn recorded_content_type_is_returned_as_written() {
    let written = "text/plain;charset=UTF-8".as_bytes().to_vec();
    assert_eq!(content_type_typepath(Some(written), "a_b.txt.type"), "text/plain;charset=UTF-8");
    assert_eq!(content_type_typepath(Some(Vec::new()), "a_b.txt.type"), "");
}

#[test]
fn missing_record_is_sniffed_by_extension() {
    assert_eq!(content_type_typepath(None, "a_b.txt.type"), "text/plain; charset=utf-8");
    assert_eq!(content_type_typepath(None, "a_b.json.type"), "application/json");
    assert_eq!(content_type_typepath(None, "a_b.PNG.type"), "image/png");
    assert_eq!(content_type_sniffed("a_b.html.type"), "text/html; charset=utf-8");
}

#[test]
fn unknown_or_missing_extension_is_octet_stream() {
    assert_eq!(content_type_typepath(None, "a_b.zzz.type"), "application/octet-stream");
    assert_eq!(content_type_typepath(None, "README..type"), "application/octet-stream");
    assert_eq!(content_type_typepath(None, "..type"), "application/octet-stream");
}

#[test]
fn record_that_is_no_text_is_sniffed() {
    let broken = vec![0xff, 0xfe, 0x00];
    assert_eq!(content_type_typepath(Some(broken), "a_b.css.type"), "text/css; charset=utf-8");
}

#[test]
fn upstream_content_type_defaults_to_octet_stream() {
    assert_eq!(content_type_upstream(Some("image/gif".to_string())), "image/gif");
    assert_eq!(content_type_upstream(None), "application/octet-stream");
}

#[test]
fn client_address_prefers_forwarded_for() {
    assert_eq!(get_ip(Some("1.1.1.1, 2.2.2.2"), Some("3.3.3.3"), Some("4.4.4.4")), "1.1.1.1");
    assert_eq!(get_ip(Some("1.1.1.1"), Some("3.3.3.3"), Some("4.4.4.4")), "1.1.1.1");
    assert_eq!(get_ip(Some(",x"), None, None), "");
    assert_eq!(get_ip(None, Some("3.3.3.3"), Some("4.4.4.4")), "3.3.3.3");
    assert_eq!(get_ip(None, None, Some("4.4.4.4")), "4.4.4.4");
    assert_eq!(get_ip(None, None, None), "-");
    assert_eq!(first_of_list("a,b,c"), "a");
    assert_eq!(first_of_list(""), "");
}

#[test]
fn user_agent_defaults_to_dash() {
    assert_eq!(get_ua(Some("curl/8".to_string())), "curl/8");
    assert_eq!(get_ua(None), "-");
}

#[test]
fn trim_strips_slashes_at_both_ends() {
    assert_eq!(trim_slashes("/a/b/"), "a/b");
    assert_eq!(trim_slashes("///a//b///"), "a//b");
    assert_eq!(trim_slashes("a/b"), "a/b");
    assert_eq!(trim_slashes("////"), "");
    assert_eq!(trim_slashes(""), "");
    assert_eq!(count_slashes("a/b/c"), 2);
    assert_eq!(count_slashes(""), 0);
}

#[test]
fn path_needs_the_minimum_of_segments() {
    assert_eq!(MIN_SEGMENTS, 2);
    assert_eq!(GHPath::from_request_parts("").unwrap_err(), 404);
    assert_eq!(GHPath::from_request_parts("/").unwrap_err(), 404);
    assert_eq!(GHPath::from_request_parts("/octocat").unwrap_err(), 404);
    assert_eq!(GHPath::from_request_parts("/octocat/").unwrap_err(), 404);
    assert_eq!(GHPath::from_request_parts("/octocat/Hello-World").unwrap().0, "octocat/Hello-World");
    assert_eq!(
        GHPath::from_request_parts("/octocat/Hello-World/master/README/").unwrap().0,
        "octocat/Hello-World/master/README"
    );
    assert_eq!(GHPath::from_request_parts("a//b").unwrap().0, "a//b");
}

#[test]
fn upstream_url_points_at_the_raw_host() {
    assert_eq!(
        Request::new("octocat/Hello-World/master/README").url,
        "https://raw.githubusercontent.com/octocat/Hello-World/master/README"
    );
    let ok: Result<u8, FetchError> = Ok(7);
    assert_eq!(Request::result(ok).unwrap(), 7);
    let failed: Result<u8, FetchError> =
        Err(FetchError::Upstream("connection refused".to_string()));
    let error = Request::result(failed).unwrap_err();
    assert_eq!(error.reason, "connection refused");
    assert_eq!(error.status, 500);
}

#[test]
fn path_guard_refuses_empty_and_unsafe_paths() {
    assert_eq!(PathGuard::from_segments(0, Ok("a".to_string())).unwrap_err(), PathError::BadLen);
    assert_eq!(
        PathGuard::from_segments(0, Err(SegmentError::BadStart('.'))).unwrap_err(),
        PathError::BadLen
    );
    assert_eq!(
        PathGuard::from_segments(2, Err(SegmentError::BadStart('.'))).unwrap_err(),
        PathError::Other(SegmentError::BadStart('.'))
    );
    assert_eq!(
        PathGuard::from_segments(1, Err(SegmentError::BadEnd(':'))).unwrap_err(),
        PathError::Other(SegmentError::BadEnd(':'))
    );
    assert_eq!(
        PathGuard::from_segments(4, Err(SegmentError::BadChar('/'))).unwrap_err(),
        PathError::Other(SegmentError::BadChar('/'))
    );
    assert_eq!(PathGuard::from_segments(3, Ok("a/b/c".to_string())).unwrap().0, "a/b/c");
}
