use simple_gh::logger::{
    alive, colored_level, label, rocket_line, starts_with, Color, Level, LineShape, Logging,
    QUERY_SHOWN,
};

#[test]
fn levels_have_a_colour_and_a_name() {
    assert_eq!(colored_level(Level::Error), (Color::Red, "ERROR"));
    assert_eq!(colored_level(Level::Warn), (Color::Yellow, "WARN"));
    assert_eq!(colored_level(Level::Info), (Color::Green, "INFO"));
    assert_eq!(colored_level(Level::Debug), (Color::Blue, "DEBUG"));
    assert_eq!(colored_level(Level::Trace), (Color::Magenta, "TRACE"));
}

#[test]
fn probe_is_logged_at_debug_level() {
    let log = Logging();
    assert_eq!(log.level("/alive", 200), Level::Debug);
    assert_eq!(log.level("/alive/", 200), Level::Info);
    assert_eq!(log.level("/gh/a/b", 200), Level::Info);
    assert_eq!(log.level("/gh/a/b", 299), Level::Info);
    assert_eq!(log.level("/gh/a/b", 404), Level::Warn);
    assert_eq!(log.level("/alive", 500), Level::Warn);
    assert_eq!(log.level("/gh/a/b", 301), Level::Warn);
}

#[test]
fn failures_stand_out_from_status_400_on() {
    let log = Logging();
    assert_eq!(log.severity(200), Level::Info);
    assert_eq!(log.severity(399), Level::Info);
    assert_eq!(log.severity(400), Level::Error);
    assert_eq!(log.severity(500), Level::Error);
}

#[test]
fn probe_requests_are_kept_out_of_the_log() {
    let log = Logging();
    assert!(!log.is_logged("/alive"));
    assert!(!log.is_logged("/alive/now"));
    assert!(log.is_logged("/gh/alive"));
    assert!(log.is_logged("/aliv"));
    assert!(log.is_logged(""));
    assert!(starts_with("/alive", ""));
    assert!(!starts_with("", "/"));
    assert!(starts_with("ébc", "é"));
}

#[test]
fn logged_path_shows_the_query() {
    let log = Logging();
    assert_eq!(log.path_query("/gh/a/b", Some("token=x")), "/gh/a/b?token=x");
    assert_eq!(log.path_query("/gh/a/b", Some("")), "/gh/a/b?");
    assert_eq!(log.path_query("/gh/a/b", None), "/gh/a/b");
}

#[test]
fn liveness_follows_the_background_task() {
    assert_eq!(alive(false, "2024-01-01T00:00:00.000+00:00".to_string()).unwrap(), "2024-01-01T00:00:00.000+00:00");
    let error = alive(true, "now".to_string()).unwrap_err();
    assert_eq!(error.status, 500);
    assert_eq!(error.reason, "background task failed");
}

#[test]
fn framework_lines_take_their_shape_from_level_and_place() {
    assert_eq!(rocket_line(false, false, Level::Error), LineShape::Labelled(Color::Red));
    assert_eq!(rocket_line(true, false, Level::Error), LineShape::Plain(Color::Red));
    assert_eq!(rocket_line(false, false, Level::Warn), LineShape::Labelled(Color::Yellow));
    assert_eq!(rocket_line(true, false, Level::Warn), LineShape::Plain(Color::Yellow));
    assert_eq!(rocket_line(false, false, Level::Info), LineShape::Plain(Color::Blue));
    assert_eq!(rocket_line(true, false, Level::Info), LineShape::Plain(Color::Blue));
    assert_eq!(rocket_line(false, false, Level::Trace), LineShape::Plain(Color::Magenta));
    assert_eq!(rocket_line(false, false, Level::Debug), LineShape::Located);
    assert_eq!(rocket_line(true, false, Level::Debug), LineShape::Located);
}

#[test]
fn launch_lines_count_as_information() {
    for level in [Level::Error, Level::Warn, Level::Info, Level::Debug, Level::Trace] {
        assert_eq!(rocket_line(false, true, level), LineShape::Plain(Color::Blue));
        assert_eq!(rocket_line(true, true, level), LineShape::Plain(Color::Blue));
    }
}

#[test]
fn labels_name_errors_and_warnings() {
    assert_eq!(label(Color::Red), "Error:");
    assert_eq!(label(Color::Yellow), "Warning:");
}

#[test]
fn rank_is_shown_where_it_is_not_negative() {
    let log = Logging();
    assert!(log.shows_rank(0));
    assert!(log.shows_rank(7));
    assert!(!log.shows_rank(-1));
    assert!(!log.shows_rank(isize::MIN));
}

#[test]
fn long_queries_are_cut_in_the_log() {
    let log = Logging();
    assert_eq!(QUERY_SHOWN, 30);
    assert_eq!(log.short_query("token=secret"), "token=secret");
    assert_eq!(log.short_query(""), "");
    let thirty = "a".repeat(30);
    assert_eq!(log.short_query(&thirty), thirty);
    let long = format!("{}{}", thirty, "tail");
    assert_eq!(log.short_query(&long), thirty);
    let accented = "é".repeat(31);
    assert_eq!(log.short_query(&accented), "é".repeat(30));
}
