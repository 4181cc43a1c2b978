use gte_services::checker::{
    check_for_update, fetch_latest_version, release_request, start_periodic_update_check,
    start_periodic_update_check_with_interval, start_update_check, CheckAction, CheckEvent,
    FetchReply, Received, ReleaseCheckResult, UpdateTask, CURRENT_VERSION, DEFAULT_RELEASES_URL,
};
use gte_services::install::{
    detect_install_method, detect_install_method_from_path, is_arch_linux, InstallMethod,
    HOMEBREW_UPDATE_COMMAND,
};
use gte_services::stamp::{
    read_update_stamp_file, should_run_update_check, update_stamp_dir, update_stamp_file_path,
    write_update_stamp_file, UtcTime, UPDATE_CHECK_INTERVAL,
};
use gte_services::version::{is_newer_version, parse_version_from_json};

#[test]
fn test_is_newer_version() {
    // (current, latest, expected_newer)
    let cases = [
        ("0.1.26", "1.0.0", true),        // major bump
        ("0.1.26", "0.2.0", true),        // minor bump
        ("0.1.26", "0.1.27", true),       // patch bump
        ("0.1.26", "0.1.26", false),      // same
        ("0.1.26", "0.1.25", false),      // older patch
        ("0.2.0", "0.1.26", false),       // older minor
        ("1.0.0", "0.1.26", false),       // older major
        ("0.1.26-alpha", "0.1.27", true), // prerelease current
        ("0.1.26", "0.1.27-beta", true),  // prerelease latest
    ];
    for (current, latest, expected) in cases {
        assert_eq!(
            is_newer_version(current, latest),
            expected,
            "is_newer_version({:?}, {:?})",
            current,
            latest
        );
    }
}

#[test]
fn test_detect_install_method() {
    let cases = [
        (
            "/opt/homebrew/Cellar/gte/0.3.6/bin/gte",
            InstallMethod::Homebrew,
        ),
        (
            "/opt/homebrew/Cellar/fresh/0.1.26/bin/fresh",
            InstallMethod::Homebrew,
        ),
        (
            "/home/linuxbrew/.linuxbrew/bin/fresh",
            InstallMethod::Homebrew,
        ),
        ("/home/user/.cargo/bin/gte", InstallMethod::Cargo),
        (
            "C:\\Users\\user\\.cargo\\bin\\gte.exe",
            InstallMethod::Cargo,
        ),
        (
            "/usr/local/lib/node_modules/gte/bin/gte",
            InstallMethod::Npm,
        ),
        ("/usr/local/bin/gte", InstallMethod::PackageManager),
        ("/home/user/downloads/gte", InstallMethod::Unknown),
    ];
    for (path, expected) in cases {
        for os_release in [None, Some("NAME=\"Arch Linux\"\n"), Some("ID=debian\n")] {
            assert_eq!(
                detect_install_method_from_path(path, os_release),
                expected,
                "detect_install_method({:?})",
                path
            );
        }
    }
}

#[test]
fn test_update_commands_use_gte_packages() {
    assert_eq!(
        InstallMethod::Homebrew.update_command(),
        Some("brew upgrade gte")
    );
    assert_eq!(
        InstallMethod::Cargo.update_command(),
        Some("cargo install --locked gte")
    );
    assert_eq!(
        InstallMethod::Npm.update_command(),
        Some("npm update -g gte")
    );
}

const NANOS: u128 = 1_000_000_000;

/// A clock that a test sets forward by hand.
struct TestClock {
    nanos: u128,
}

impl TestClock {
    fn new() -> TestClock {
        TestClock { nanos: 1_700_000_000 * NANOS + 123_456_789 }
    }

    fn now(&self) -> UtcTime {
        UtcTime::new((self.nanos / NANOS) as i64, (self.nanos % NANOS) as u32).unwrap()
    }

    fn advance(&mut self, nanos: u128) {
        self.nanos += nanos;
    }
}

#[test]
fn test_should_run_update_check_debounces_by_interval() {
    let mut clock = TestClock::new();
    let mut stamp: Option<String> = None;
    let interval: u128 = 6 * 60 * 60 * NANOS;

    assert!(should_run_update_check(&clock.now(), &mut stamp, interval));
    assert!(!should_run_update_check(&clock.now(), &mut stamp, interval));

    clock.advance(interval - NANOS);
    assert!(!should_run_update_check(&clock.now(), &mut stamp, interval));

    clock.advance(NANOS);
    assert!(should_run_update_check(&clock.now(), &mut stamp, interval));
}

#[test]
fn test_parse_version_from_json() {
    // Various JSON formats should all parse correctly
    let cases = [
        (r#"{"tag_name": "v0.1.27"}"#, "0.1.27"),
        (r#"{"tag_name": "0.1.27"}"#, "0.1.27"),
        (
            r#"{"tag_name": "v0.2.0", "name": "v0.2.0", "draft": false}"#,
            "0.2.0",
        ),
    ];
    for (json, expected) in cases {
        assert_eq!(parse_version_from_json(json).unwrap(), expected);
    }

    // Verify mock version is detected as newer than current
    let version = parse_version_from_json(r#"{"tag_name": "v99.0.0"}"#).unwrap();
    assert!(is_newer_version(CURRENT_VERSION, &version));
}

#[test]
fn test_current_version_is_valid() {
    let parts: Vec<&str> = CURRENT_VERSION.split('.').collect();
    assert!(parts.len() >= 2, "Version should have at least major.minor");
    assert!(parts[0].parse::<u32>().is_ok());
    assert!(parts[1].parse::<u32>().is_ok());
}

/// A releases endpoint that answers with one version.
fn reply_with(version: &str) -> FetchReply {
    FetchReply::Body(format!(r#"{{"tag_name": "v{}"}}"#, version))
}

/// Runs a check to its end, and gives what it sends.
fn run_to_end(
    mut task: UpdateTask,
    clock: &TestClock,
    stamp: &mut Option<String>,
    version: &str,
) -> Received {
    let mut received = Received::Empty;
    loop {
        let event = match task.pending() {
            CheckAction::DailyCheck => CheckEvent::Daily(Some("id".to_string())),
            CheckAction::ReportOpen(id) => {
                assert_eq!(id, "id");
                CheckEvent::Reported
            }
            CheckAction::ReadStamp => CheckEvent::Stamp { now: clock.now(), content: stamp.clone() },
            CheckAction::WriteStamp(text) => {
                *stamp = Some(text.clone());
                CheckEvent::StampWritten
            }
            CheckAction::Fetch(request) => {
                assert_eq!(request.url, "http://127.0.0.1/releases/latest");
                CheckEvent::Fetched {
                    reply: reply_with(version),
                    exe_path: Some("/usr/bin/gte".to_string()),
                    os_release: None,
                }
            }
            CheckAction::Send(result) => {
                received = Received::Message(result.clone());
                CheckEvent::Sent
            }
            CheckAction::Done => return received,
        };
        task.advance(event);
    }
}

#[test]
fn test_update_checker_detects_new_version() {
    let clock = TestClock::new();
    let mut stamp: Option<String> = None;
    let (mut checker, task) = start_periodic_update_check("http://127.0.0.1/releases/latest");

    let received = run_to_end(task, &clock, &mut stamp, "99.0.0");
    assert!(checker.poll_result(received).is_some());

    assert!(checker.is_update_available());
    assert_eq!(checker.latest_version(), Some("99.0.0"));
}

#[test]
fn test_update_checker_no_update_when_current() {
    let clock = TestClock::new();
    let mut stamp: Option<String> = None;
    let (mut checker, task) = start_periodic_update_check("http://127.0.0.1/releases/latest");

    let received = run_to_end(task, &clock, &mut stamp, CURRENT_VERSION);
    assert!(checker.poll_result(received).is_some());

    assert!(!checker.is_update_available());
    assert!(checker.latest_version().is_none());
    assert!(checker.get_cached_result().is_some());
}

#[test]
fn test_update_checker_api_before_result() {
    let (checker, _task) = start_periodic_update_check("http://127.0.0.1/releases/latest");

    // Immediately check (before result arrives)
    assert!(!checker.is_update_available());
    assert!(checker.latest_version().is_none());
    assert!(checker.get_cached_result().is_none());
}

#[test]
fn second_check_within_the_interval_asks_nothing() {
    let mut clock = TestClock::new();
    let mut stamp: Option<String> = None;
    let url = "http://127.0.0.1/releases/latest";

    let (_, task) = start_update_check(url);
    assert!(matches!(run_to_end(task, &clock, &mut stamp, "99.0.0"), Received::Message(Ok(_))));
    let left = stamp.clone();

    clock.advance(UPDATE_CHECK_INTERVAL - 1);
    let (handle, task) = start_update_check(url);
    let received = run_to_end(task, &clock, &mut stamp, "99.0.0");
    assert!(matches!(received, Received::Empty));
    assert!(handle.try_get_result(received).is_none());
    assert_eq!(stamp, left);

    clock.advance(1);
    let (handle, task) = start_update_check(url);
    let received = run_to_end(task, &clock, &mut stamp, "99.0.0");
    let found = handle.try_get_result(received).unwrap().unwrap();
    assert_eq!(found.latest_version, "99.0.0");
    assert_ne!(stamp, left);
}

#[test]
fn own_interval_is_kept() {
    let mut clock = TestClock::new();
    let mut stamp: Option<String> = None;
    let url = "http://127.0.0.1/releases/latest";
    let (_, task) = start_periodic_update_check_with_interval(url, 5);
    assert!(matches!(run_to_end(task, &clock, &mut stamp, "1.0.0"), Received::Message(_)));
    clock.advance(4);
    let (_, task) = start_periodic_update_check_with_interval(url, 5);
    assert!(matches!(run_to_end(task, &clock, &mut stamp, "1.0.0"), Received::Empty));
    clock.advance(1);
    let (_, task) = start_periodic_update_check_with_interval(url, 5);
    assert!(matches!(run_to_end(task, &clock, &mut stamp, "1.0.0"), Received::Message(_)));
}

#[test]
fn events_out_of_turn_change_nothing() {
    let (_, mut task) = start_update_check(DEFAULT_RELEASES_URL);
    task.advance(CheckEvent::Sent);
    assert!(matches!(task.pending(), CheckAction::DailyCheck));
    task.advance(CheckEvent::Daily(None));
    assert!(matches!(task.pending(), CheckAction::ReadStamp));
    task.advance(CheckEvent::StampWritten);
    assert!(matches!(task.pending(), CheckAction::ReadStamp));
}

#[test]
fn a_check_that_has_ended_stays_so() {
    let clock = TestClock::new();
    let (_, mut task) = start_update_check(DEFAULT_RELEASES_URL);
    task.advance(CheckEvent::Daily(None));
    let fresh = write_update_stamp_file(&clock.now());
    task.advance(CheckEvent::Stamp { now: clock.now(), content: Some(fresh) });
    assert!(matches!(task.pending(), CheckAction::Done));
    task.advance(CheckEvent::Daily(None));
    task.advance(CheckEvent::Stamp { now: clock.now(), content: None });
    task.advance(CheckEvent::StampWritten);
    assert!(matches!(task.pending(), CheckAction::Done));
}

#[test]
fn failure_keeps_the_last_success() {
    let (mut checker, _) = start_periodic_update_check(DEFAULT_RELEASES_URL);
    let success = check_for_update(&reply_with("99.0.0"), None, None);
    assert!(checker.poll_result(Received::Message(success)).unwrap().is_ok());
    let failure = check_for_update(&FetchReply::RequestFailed("no route".to_string()), None, None);
    let seen = checker.poll_result(Received::Message(failure)).unwrap();
    assert_eq!(seen.unwrap_err(), "HTTP request failed: no route");
    assert!(checker.is_update_available());
    assert_eq!(checker.latest_version(), Some("99.0.0"));
    assert!(checker.poll_result(Received::Disconnected).is_none());
    assert_eq!(checker.get_cached_result().unwrap().latest_version, "99.0.0");
}

#[test]
fn one_poll_gives_the_result() {
    let clock = TestClock::new();
    let mut stamp: Option<String> = None;
    let (mut checker, task) = start_periodic_update_check("http://127.0.0.1/releases/latest");
    assert!(checker.poll_result(Received::Empty).is_none());
    assert!(checker.get_cached_result().is_none());
    let received = run_to_end(task, &clock, &mut stamp, "99.0.0");
    assert!(checker.poll_result(received).is_some());
    for _ in 0..3 {
        assert!(checker.poll_result(Received::Disconnected).is_none());
        assert_eq!(checker.get_cached_result().unwrap().latest_version, "99.0.0");
    }
}

#[test]
fn a_check_that_has_sent_its_result_has_ended() {
    let clock = TestClock::new();
    let (_, mut task) = start_update_check(DEFAULT_RELEASES_URL);
    task.advance(CheckEvent::Daily(None));
    task.advance(CheckEvent::Stamp { now: clock.now(), content: None });
    task.advance(CheckEvent::StampWritten);
    task.advance(CheckEvent::Fetched { reply: reply_with("1.0.0"), exe_path: None, os_release: None });
    assert!(matches!(task.pending(), CheckAction::Send(Ok(_))));
    task.advance(CheckEvent::Sent);
    assert!(matches!(task.pending(), CheckAction::Done));
    task.advance(CheckEvent::Fetched { reply: reply_with("2.0.0"), exe_path: None, os_release: None });
    task.advance(CheckEvent::Sent);
    assert!(matches!(task.pending(), CheckAction::Done));
}

#[test]
fn replies_give_versions_or_reasons() {
    assert_eq!(fetch_latest_version(&reply_with("1.2.3")).unwrap(), "1.2.3");
    assert_eq!(
        fetch_latest_version(&FetchReply::RequestFailed("timeout".to_string())).unwrap_err(),
        "HTTP request failed: timeout"
    );
    assert_eq!(
        fetch_latest_version(&FetchReply::BodyFailed("cut off".to_string())).unwrap_err(),
        "Failed to read response body: cut off"
    );
    assert_eq!(
        fetch_latest_version(&FetchReply::Body("{}".to_string())).unwrap_err(),
        "tag_name not found in response"
    );
}

#[test]
fn listing_errors_and_layouts() {
    assert_eq!(parse_version_from_json("").unwrap_err(), "tag_name not found in response");
    assert_eq!(
        parse_version_from_json("{\"tag_name\": 1}").unwrap_err(),
        "Invalid JSON: missing quote after tag_name"
    );
    assert_eq!(
        parse_version_from_json("{\"tag_name\": \"v1").unwrap_err(),
        "Invalid JSON: unclosed quote"
    );
    // The first tag counts, only one `v` goes, and an empty tag is a tag.
    assert_eq!(
        parse_version_from_json("{\"é\": 0, \"tag_name\"\n:\t\"vv1\", \"tag_name\": \"2\"}").unwrap(),
        "v1"
    );
    assert_eq!(parse_version_from_json("\"tag_name\"\"\"").unwrap(), "");
}

#[test]
fn version_edge_cases() {
    assert!(is_newer_version("1.2", "1.2.1"));
    assert!(!is_newer_version("1.2", "1.2.0"));
    assert!(!is_newer_version("1.2.0", "1.2"));
    assert!(!is_newer_version("1", "2"));
    assert!(!is_newer_version("", "1.0.0"));
    assert!(!is_newer_version("1.0.0", "x.0.0"));
    assert!(!is_newer_version("1.0.0", "2.0."));
    assert!(!is_newer_version("1.0.0", "2..0"));
    assert!(is_newer_version("1.0.0-rc.1", "1.0.1-rc.2"));
    assert!(is_newer_version("1.0.0", "1.0.+1"));
    assert!(is_newer_version("1.0.0", "1.0.007.9"));
    assert!(is_newer_version("0.0.0", "4294967295.0.0"));
    assert!(!is_newer_version("0.0.0", "4294967296.0.0"));
    // A hyphen or a plus sign within the first two components makes them no numbers.
    assert!(!is_newer_version("0.0.0", "1-a.0.0"));
    assert!(!is_newer_version("0.0.0", "1.2-a"));
    assert!(!is_newer_version("0.0.0", "1.2+a"));
}

#[test]
fn release_is_newer_than_its_pre_releases() {
    for pre in ["1.0.0-alpha", "1.0.0-rc.1", "1.0.0-0", "1.0.0-x+y", "1.0.0---"] {
        assert!(is_newer_version(pre, "1.0.0"), "{:?}", pre);
        assert!(is_newer_version(pre, "1.0"), "{:?}", pre);
        assert!(is_newer_version(pre, "1.0.0+7"), "{:?}", pre);
        assert!(!is_newer_version("1.0.0", pre), "{:?}", pre);
        assert!(is_newer_version("0.9.9", pre), "{:?}", pre);
        assert!(is_newer_version(pre, "1.0.1-alpha"), "{:?}", pre);
    }
}

#[test]
fn suffixes_that_are_no_pre_release_do_not_count() {
    let versions = [
        "1.0.0-", "1.0.0-a..b", "1.0.0-a.", "1.0.0-.a", "1.0.0-01", "1.0.0-a.007", "1.0.0-a_b", "1.0.0-\u{e9}",
        "1.0.0.5-a", "01.0.0-a", "1.00.0-a", "1.0.00-a", "+1.0.0-a", "1.0.+0-a", "1.0.0-a+", "1.0.0-a+b+c",
        "1.0.0-a+b_c",
    ];
    for v in versions {
        assert!(!is_newer_version(v, "1.0.0"), "{:?}", v);
        assert!(!is_newer_version("1.0.0", v), "{:?}", v);
        assert!(is_newer_version(v, "1.0.1"), "{:?}", v);
        assert!(is_newer_version("0.9.9", v), "{:?}", v);
        assert!(is_newer_version("1.0.0-a", v), "{:?}", v);
    }
}

#[test]
fn builds_that_are_none_leave_no_version() {
    for v in ["1.0.1+", "1.0.1+a_b", "1.0.1+a..b", "1.0.1+a+b", "01.0.1+a", "1.0.+1+1", "1.0.++1", "1.1+a"] {
        assert!(!is_newer_version("1.0.0", v), "{:?}", v);
        assert!(!is_newer_version(v, "2.0.0"), "{:?}", v);
    }
}

#[test]
fn pre_releases_in_order() {
    let versions = [
        "1.0.0-0",
        "1.0.0-2",
        "1.0.0-11",
        "1.0.0-99999999999999999999999",
        "1.0.0-100000000000000000000000",
        "1.0.0--",
        "1.0.0-1a",
        "1.0.0-Beta",
        "1.0.0-alpha",
        "1.0.0-alpha.1",
        "1.0.0-alpha.beta",
        "1.0.0-alpha-1",
        "1.0.0-beta",
        "1.0.0-beta.2",
        "1.0.0-beta.11",
        "1.0.0-rc.1",
        "1.0.0",
    ];
    for (i, a) in versions.iter().enumerate() {
        for (j, b) in versions.iter().enumerate() {
            assert_eq!(is_newer_version(a, b), i < j, "{:?} {:?}", a, b);
        }
    }
}

#[test]
fn builds_do_not_count() {
    assert!(is_newer_version("1.0.0", "1.0.1+7"));
    assert!(!is_newer_version("1.0.1+7", "1.0.1+8"));
    assert!(!is_newer_version("1.0.1+7.9", "1.0.1"));
    assert!(!is_newer_version("1.0.1", "1.0.1+7-x.9"));
    assert!(!is_newer_version("1.0.1+7-x.9", "1.0.1"));
    assert!(is_newer_version("1.0.1-a+9", "1.0.1-b+1"));
    assert!(!is_newer_version("1.0.1-a+1", "1.0.1-a+2"));
}

#[test]
fn newer_is_a_strict_order_on_samples() {
    let versions = [
        "0.1", "0.1.1", "0.2.0-a", "0.2.0-a.01", "0.2.0-a.1", "0.2.0+b", "0.2.0", "1.0.0", "bad", "1.0",
    ];
    for a in versions {
        assert!(!is_newer_version(a, a));
        for b in versions {
            assert!(!(is_newer_version(a, b) && is_newer_version(b, a)));
            for c in versions {
                if is_newer_version(a, b) && is_newer_version(b, c) {
                    assert!(is_newer_version(a, c));
                }
            }
        }
    }
}

#[test]
fn install_methods_in_order() {
    let arch = Some("NAME=\"Arch Linux\"\nID=arch\n");
    assert!(is_arch_linux(arch));
    assert!(is_arch_linux(Some("ID=arch")));
    assert!(!is_arch_linux(Some("ID=debian")));
    assert!(!is_arch_linux(None));
    assert_eq!(detect_install_method_from_path("/usr/bin/gte", arch), InstallMethod::Aur);
    assert_eq!(detect_install_method_from_path("/usr/bin/gte", None), InstallMethod::PackageManager);
    assert_eq!(detect_install_method_from_path("/bin/gte", arch), InstallMethod::PackageManager);
    assert_eq!(detect_install_method_from_path("/x/usr/bin/gte", arch), InstallMethod::Unknown);
    assert_eq!(
        detect_install_method_from_path("/usr/local/Cellar/gte/.cargo/bin/gte", arch),
        InstallMethod::Homebrew
    );
    assert_eq!(
        detect_install_method_from_path("/usr/bin/npm/gte", arch),
        InstallMethod::Npm
    );
    assert_eq!(
        detect_install_method_from_path("C:\\a\\node_modules\\gte", None),
        InstallMethod::Npm
    );
    assert_eq!(detect_install_method(Some("/usr/bin/gte"), arch), InstallMethod::Aur);
    assert_eq!(detect_install_method(None, arch), InstallMethod::Unknown);
}

#[test]
fn remaining_update_commands() {
    assert_eq!(HOMEBREW_UPDATE_COMMAND, "brew upgrade gte");
    assert_eq!(
        InstallMethod::Aur.update_command(),
        Some("yay -Syu gte  # or use your AUR helper")
    );
    assert_eq!(
        InstallMethod::PackageManager.update_command(),
        Some("Update using your system package manager")
    );
    assert_eq!(InstallMethod::Unknown.update_command(), None);
}

#[test]
fn check_result_has_all_parts() {
    let found: ReleaseCheckResult =
        check_for_update(&reply_with("99.0.0"), Some("/home/u/.cargo/bin/gte"), None).unwrap();
    assert_eq!(found.latest_version, "99.0.0");
    assert!(found.update_available);
    assert_eq!(found.install_method, InstallMethod::Cargo);
    let found = check_for_update(&reply_with(CURRENT_VERSION), None, None).unwrap();
    assert!(!found.update_available);
    assert_eq!(found.install_method, InstallMethod::Unknown);
}

#[test]
fn request_is_complete() {
    let request = release_request(DEFAULT_RELEASES_URL);
    assert_eq!(request.url, "https://api.github.com/repos/maddada/gte/releases/latest");
    assert_eq!(request.timeout_secs, 15);
    assert_eq!(
        request.headers,
        vec![
            ("User-Agent".to_string(), "gte-update-checker".to_string()),
            ("Accept".to_string(), "application/vnd.github.v3+json".to_string()),
        ]
    );
}

#[test]
fn stamp_paths() {
    assert_eq!(update_stamp_dir("/data"), "/data/fresh");
    assert_eq!(update_stamp_file_path("/data"), "/data/fresh/update_check_stamp");
    assert_eq!(update_stamp_file_path("/data/"), "/data/fresh/update_check_stamp");
    assert_eq!(update_stamp_file_path(""), "fresh/update_check_stamp");
}

#[test]
fn stamp_text_is_rfc3339() {
    let time = UtcTime::new(1_700_000_000, 0).unwrap();
    assert_eq!(write_update_stamp_file(&time), "2023-11-14T22:13:20+00:00");
    let time = UtcTime::new(0, 5_000_000).unwrap();
    assert_eq!(write_update_stamp_file(&time), "1970-01-01T00:00:00.005+00:00");
    assert!(read_update_stamp_file(None).is_none());
    assert!(read_update_stamp_file(Some("yesterday")).is_none());
    assert!(read_update_stamp_file(Some("")).is_none());
}

fn due(now: (i64, u32), stamp: &str, interval: u128) -> bool {
    let mut content = Some(stamp.to_string());
    let now = UtcTime::new(now.0, now.1).unwrap();
    let r = should_run_update_check(&now, &mut content, interval);
    if r {
        assert_eq!(content.unwrap(), write_update_stamp_file(&now));
    } else {
        assert_eq!(content.unwrap(), stamp);
    }
    r
}

#[test]
fn stamps_in_any_zone_and_with_space_around() {
    // 2023-11-14T22:13:20Z
    let t: i64 = 1_700_000_000;
    for stamp in ["2023-11-14T22:13:20Z", " \n2023-11-14T23:13:20+01:00\u{3000}", "2023-11-14 22:13:20-00:00"] {
        assert!(!due((t, 0), stamp, 1));
        assert!(!due((t + 9, 999_999_999), stamp, 10 * NANOS));
        assert!(due((t + 10, 0), stamp, 10 * NANOS));
        assert!(due((t, 0), stamp, 0));
    }
    assert!(due((t, 0), "not a stamp", UPDATE_CHECK_INTERVAL));
}

#[test]
fn clock_behind_the_stamp_skips_the_check() {
    let t: i64 = 1_700_000_000;
    assert!(!due((t - 1, 999_999_999), "2023-11-14T22:13:20Z", 0));
    assert!(!due((0, 0), "2023-11-14T22:13:20Z", 1));
}

#[test]
fn leap_seconds_count_as_chrono_counts_them() {
    // 2015-06-30T23:59:60.5Z is a leap second.
    let before: i64 = 1_435_708_799;
    assert!(UtcTime::new(before, 1_500_000_000).is_some());
    assert!(UtcTime::new(before + 1, 1_500_000_000).is_none());
    // Half a second into it, measured from the start of the minute.
    assert!(due((before, 1_500_000_000), "2015-06-30T23:59:00Z", 60 * NANOS + 500_000_000));
    assert!(!due((before, 1_500_000_000), "2015-06-30T23:59:00Z", 60 * NANOS + 500_000_001));
    // Earlier in the day than the stamp.
    assert!(!due((before, 1_500_000_000), "2015-07-01T12:00:00Z", 0));
    // From within a leap second to later times of day.
    let noon: i64 = 1_483_228_799;
    let stamp = "2016-12-31T12:34:60.25Z";
    assert!(due((noon, 0), stamp, (11 * 3600 + 25 * 60) as u128 * NANOS - 250_000_000));
    assert!(!due((noon, 0), stamp, (11 * 3600 + 25 * 60) as u128 * NANOS - 249_999_999));
}

#[test]
fn read_gives_back_what_was_written() {
    let samples: [(i64, u32); 7] = [
        (-62_167_219_200, 0),
        (253_402_300_799, 999_999_999),
        (0, 1),
        (1_700_000_000, 120_000_000),
        (1_700_000_000, 123_456_000),
        (1_435_708_799, 1_000_000_000),
        (1_435_708_799, 1_999_999_999),
    ];
    for (secs, nanos) in samples {
        let time = UtcTime::new(secs, nanos).unwrap();
        let text = write_update_stamp_file(&time);
        let back = read_update_stamp_file(Some(&text)).unwrap();
        assert_eq!(format!("{:?}", back), format!("{:?}", time));
    }
    // A year of five digits is written with a sign and is not read.
    let time = UtcTime::new(253_402_300_800, 0).unwrap();
    let text = write_update_stamp_file(&time);
    assert_eq!(text, "+10000-01-01T00:00:00+00:00");
    assert!(read_update_stamp_file(Some(&text)).is_none());
}

#[test]
fn moments_are_those_of_chrono() {
    let secs = [
        -8_334_601_228_801,
        -8_334_601_228_800,
        8_210_266_876_799,
        8_210_266_876_800,
        -1,
        -61,
        59,
        60,
        i64::MIN,
        i64::MAX,
    ];
    for s in secs {
        for n in [0, 999_999_999, 1_000_000_000, 1_999_999_999, 2_000_000_000] {
            assert_eq!(
                UtcTime::new(s, n).is_some(),
                chrono::DateTime::from_timestamp(s, n).is_some(),
                "{} {}",
                s,
                n
            );
        }
    }
}
