use gte_services::args::{parse_args, Args, Environment, Invocation, OutputMode};
use gte_services::clock::LocalTime;
use gte_services::image::{
    clipboard_named_path, clipboard_text_image_path, supported_image_extension,
    temporary_image_name, temporary_image_path, Host, NamedPath,
};
use gte_services::path::{HostPath, Place};
use gte_services::percent::percent_decode;
use gte_services::remote::{
    allocate_remote_path, candidate_path, create_remote_dir, default_image_dir, image_markdown,
    markdown_path_target, read_remote_home, remote_home, remote_path_exists, shell_quote,
    upload_file, Allocation, CommandOutput, CommandStatus,
};
use gte_services::upload::{UploadEvent, UploadSession, UploadStep};

fn strings(list: &[&str]) -> Vec<String> {
    list.iter().map(|s| s.to_string()).collect()
}

fn no_env() -> Environment {
    Environment { remote: None, remote_dir: None, number: None }
}

fn some(s: &str) -> Option<String> {
    Some(s.to_string())
}

fn parse(env: Environment, args: &[&str]) -> Result<Args, String> {
    match parse_args(env, &strings(args)) {
        Ok(Invocation::Upload(args)) => Ok(args),
        Ok(Invocation::Help) => panic!("help"),
        Err(e) => Err(e),
    }
}

#[test]
fn arguments_are_read() {
    let args = parse(
        no_env(),
        &["--remote", "me@host", "--remote-dir", "/img", "--number", "7", "--clipboard"],
    )
    .unwrap();
    assert_eq!(args.remote, "me@host");
    assert_eq!(args.remote_dir, some("/img"));
    assert_eq!(args.number, 7);
    assert_eq!(args.mode, OutputMode::Clipboard);

    let args = parse(no_env(), &["--remote", "h"]).unwrap();
    assert_eq!(args.remote_dir, None);
    assert_eq!(args.number, 1);
    assert_eq!(args.mode, OutputMode::Stdout);
}

#[test]
fn environment_is_overridden() {
    let env = || Environment { remote: some("env"), remote_dir: some("/env"), number: some("3") };
    let args = parse(env(), &[]).unwrap();
    assert_eq!(args.remote, "env");
    assert_eq!(args.remote_dir, some("/env"));
    assert_eq!(args.number, 3);
    let args = parse(env(), &["--remote", "a", "--remote", "b", "--clipboard", "--stdout"]).unwrap();
    assert_eq!(args.remote, "b");
    assert_eq!(args.mode, OutputMode::Stdout);
    // An option without its value takes away what the environment has set.
    assert_eq!(parse(env(), &["--remote-dir"]).unwrap().remote_dir, None);
    assert_eq!(
        parse(env(), &["--remote"]).unwrap_err(),
        "missing SSH target; pass --remote user@host or set ZAPET_SSH_REMOTE"
    );
    // A number in the environment that is none counts as one, and zero is let through there.
    let numbered = |n: &str| Environment { remote: some("r"), remote_dir: None, number: some(n) };
    assert_eq!(parse(numbered("x"), &[]).unwrap().number, 1);
    assert_eq!(parse(numbered("0"), &[]).unwrap().number, 0);
    assert_eq!(parse(numbered("+12"), &[]).unwrap().number, 12);
}

#[test]
fn refused_arguments() {
    let e = |args: &[&str]| parse(no_env(), args).unwrap_err();
    assert_eq!(e(&[]), "missing SSH target; pass --remote user@host or set ZAPET_SSH_REMOTE");
    assert_eq!(e(&["--number"]), "--number requires a value");
    assert_eq!(e(&["--number", "0"]), "--number must be a positive integer");
    assert_eq!(e(&["--number", "-1"]), "--number must be a positive integer");
    assert_eq!(e(&["--number", "18446744073709551616"]), "--number must be a positive integer");
    assert_eq!(e(&["--verbose"]), "unknown argument: --verbose");
    assert_eq!(e(&["", "--help"]), "unknown argument: ");
    let max = parse(no_env(), &["--remote", "r", "--number", "18446744073709551615"]).unwrap();
    assert_eq!(max.number, usize::MAX);
}

#[test]
fn help_comes_first_from_the_left() {
    for args in [vec!["-h"], vec!["--remote", "x", "--help", "--bad"]] {
        assert!(matches!(parse_args(no_env(), &strings(&args)), Ok(Invocation::Help)));
    }
    assert!(parse_args(no_env(), &strings(&["--bad", "-h"])).is_err());
    // A value is taken whatever it looks like.
    assert_eq!(parse(no_env(), &["--remote", "--help"]).unwrap().remote, "--help");
}

#[test]
fn supported_extensions() {
    let cases = [
        ("/a/b.png", Some("png")),
        ("/a/b.PNG", Some("png")),
        ("/a/b.jpeg", Some("jpg")),
        ("/a/b.JpG", Some("jpg")),
        ("b.gif", Some("gif")),
        ("b.webp", Some("webp")),
        ("b.bmp", Some("bmp")),
        ("b.tif", Some("tiff")),
        ("b.tiff", Some("tiff")),
        ("b.svg", None),
        ("png", None),
        (".png", None),
        ("a.png/", Some("png")),
        ("a.png/.", Some("png")),
        ("a.png/..", None),
        ("a.png//", Some("png")),
        ("a.tar.png", Some("png")),
        ("a.png.", None),
        ("..png", Some("png")),
        ("", None),
    ];
    for (path, expected) in cases {
        assert_eq!(supported_image_extension(&HostPath::posix(path.to_string())), expected, "{:?}", path);
    }
}

#[test]
fn extensions_are_those_of_std() {
    let paths = [
        "/a.png", "a.png", "./a.png", "a/.png", "a/..png", ".", "..", "/", "a.png/./.", "x/../a.gif",
        "a.gif/..", "/.gif", "é.gif", "a.g/b", "./.gif", "a..gif", "", "//x.gif//",
    ];
    for path in paths {
        let ext = std::path::Path::new(path).extension().and_then(|e| e.to_str());
        let expected = match ext {
            Some("png") => Some("png"),
            Some("gif") => Some("gif"),
            _ => None,
        };
        assert_eq!(supported_image_extension(&HostPath::posix(path.to_string())), expected, "{:?}", path);
    }
}

/// The path that a text names on a machine with POSIX paths.
fn on_posix(text: &str, home: Option<&str>) -> Option<String> {
    let host = Host::Posix { home: home.map(|dir| dir.to_string()) };
    clipboard_text_image_path(text, &host).map(|p| p.text)
}

#[test]
fn clipboard_texts() {
    let home = Some("/home/me");
    let at = |text: &str| on_posix(text, home);
    assert_eq!(at(" /a/b.png\n"), some("/a/b.png"));
    assert_eq!(at("\"/a/b c.png\""), some("/a/b c.png"));
    assert_eq!(at("'/a/b.png'"), some("/a/b.png"));
    assert_eq!(at("file:///a/b%20c.jpg"), some("/a/b c.jpg"));
    assert_eq!(at("file://localhost/a/b.jpg"), some("/a/b.jpg"));
    assert_eq!(at("'file:///a/%C3%A9.gif'"), some("/a/é.gif"));
    assert_eq!(at("~/b.png"), some("/home/me/b.png"));
    assert_eq!(at("~//b.png"), some("/b.png"));
    assert_eq!(on_posix("~/b.png", Some("/h/")), some("/h/b.png"));
    assert_eq!(on_posix("~/b.png", None), None);
    assert_eq!(on_posix("/b.png", None), some("/b.png"));
    assert_eq!(at(""), None);
    assert_eq!(at(" \t"), None);
    assert_eq!(at("/a.png\n/b.png"), None);
    assert_eq!(at("/a\r.png"), some("/a\r.png"));
    assert_eq!(at("a.png"), None);
    assert_eq!(at("/a.txt"), None);
    assert_eq!(at("\"/a.png"), None);
    assert_eq!(at("\""), None);
    assert_eq!(at("file://a%2.png"), None);
    assert_eq!(at("file://%FF/a.png"), None);
    // What is not a URL is not decoded.
    assert_eq!(at("/a%20.png"), some("/a%20.png"));
}

#[test]
fn paths_of_other_machines() {
    let found = |text: &str, absolute: bool, extension: Option<&str>| {
        let path = HostPath {
            text: "C:\\a\\b.PNG".to_string(),
            absolute,
            extension: extension.map(|e| e.to_string()),
        };
        clipboard_text_image_path(text, &Host::Other { resolved: Some(path) })
    };
    let path = found("C:\\a\\b.PNG", true, Some("PNG")).unwrap();
    assert_eq!(path.text, "C:\\a\\b.PNG");
    assert_eq!(supported_image_extension(&path), Some("png"));
    assert!(found("C:\\a\\b.PNG", false, Some("PNG")).is_none());
    assert!(found("C:\\a\\b.PNG", true, Some("txt")).is_none());
    assert!(found("C:\\a\\b.PNG", true, None).is_none());
    assert!(found("two\nlines", true, Some("png")).is_none());
    assert!(found("file://%", true, Some("png")).is_none());
    assert!(clipboard_text_image_path("~/a.png", &Host::Other { resolved: None }).is_none());
}

#[test]
fn named_paths() {
    let whole = |text: &str| match clipboard_named_path(text) {
        Some(NamedPath::Whole(p)) => Some(p),
        _ => None,
    };
    let under_home = |text: &str| match clipboard_named_path(text) {
        Some(NamedPath::UnderHome(p)) => Some(p),
        _ => None,
    };
    assert_eq!(whole(" \"C:\\a b.png\" "), some("C:\\a b.png"));
    assert_eq!(whole("file://localhost/a%20b"), some("/a b"));
    assert_eq!(whole("words"), some("words"));
    assert_eq!(whole("~"), some("~"));
    assert_eq!(under_home("~/a.png"), some("a.png"));
    assert_eq!(under_home("file://~/%7e"), some("~"));
    assert!(clipboard_named_path("").is_none());
    assert!(clipboard_named_path("a\nb").is_none());
    assert!(clipboard_named_path("file://%zz").is_none());
}

#[test]
fn kinds_are_canonical_whatever_the_case() {
    for path in ["/A/B.PnG", "/a/b.JPEG", "/x.TIF", "/y.gif/.", "/z.WebP", "/w.bmp", "/v.txt", "/.PNG"] {
        let kind = |p: String| supported_image_extension(&HostPath::posix(p));
        assert_eq!(kind(path.to_ascii_lowercase()), kind(path.to_string()));
        assert_eq!(kind(path.to_ascii_uppercase()), kind(path.to_string()));
        if let Some(k) = kind(path.to_string()) {
            assert_eq!(kind(format!("x.{}", k)), Some(k));
        }
    }
}

#[test]
fn home_joins_as_std_joins() {
    for home in ["/home/me", "/home/me/", "/", ""] {
        for rest in ["a.png", "/a.png", "x/a.png"] {
            let expected = std::path::Path::new(home).join(rest);
            let expected = if expected.is_absolute() {
                Some(expected.to_str().unwrap().to_string())
            } else {
                None
            };
            assert_eq!(on_posix(&format!("~/{}", rest), Some(home)), expected);
        }
    }
}

#[test]
fn space_around_is_that_of_std() {
    for code in 0..0x110000u32 {
        if let Some(c) = char::from_u32(code) {
            let space = gte_services::text::white_space(c);
            assert_eq!(space, c.is_whitespace(), "{:x}", code);
        }
    }
    let chars: Vec<char> = "\u{2003}a b\u{85}".chars().collect();
    let kept: String = gte_services::text::trimmed(&chars).iter().collect();
    assert_eq!(kept, "\u{2003}a b\u{85}".trim());
}

#[test]
fn percent_decoding() {
    assert_eq!(percent_decode("a%20b"), some("a b"));
    assert_eq!(percent_decode(""), some(""));
    assert_eq!(percent_decode("%41%6a%6A"), some("Ajj"));
    assert_eq!(percent_decode("%E2%82%AC"), some("€"));
    assert_eq!(percent_decode("%E2%82"), None);
    assert_eq!(percent_decode("%"), None);
    assert_eq!(percent_decode("%4"), None);
    assert_eq!(percent_decode("%g0"), None);
    assert_eq!(percent_decode("%é"), None);
    assert_eq!(percent_decode("plain é"), some("plain é"));
    // A sign before a single digit is taken as part of the number.
    assert_eq!(percent_decode("%+9"), some("\t"));
    assert_eq!(percent_decode("%-9"), None);
}

#[test]
fn percent_pairs_are_those_of_std() {
    for high in 0u8..128 {
        for low in 0u8..128 {
            let pair = format!("{}{}", high as char, low as char);
            let expected = match u8::from_str_radix(&pair, 16) {
                Ok(byte) if byte < 128 => Some((byte as char).to_string()),
                _ => None,
            };
            assert_eq!(percent_decode(&format!("%{}", pair)), expected, "{:?}", pair);
        }
    }
}

#[test]
fn percent_encoded_text_reads_back() {
    for text in ["", "a", "%", "/tmp/ü €.png", "\u{10ffff}\0"] {
        let mut encoded = String::new();
        for b in text.bytes() {
            encoded.push_str(&format!("%{:02X}", b));
        }
        assert_eq!(percent_decode(&encoded), some(text));
    }
}

#[test]
fn partly_encoded_text_reads_back() {
    for text in ["", "100% \u{e9}.png", "%41", "/tmp/\u{20ac}"] {
        for pattern in 0..8 {
            let mut encoded: Vec<u8> = Vec::new();
            for (i, b) in text.bytes().enumerate() {
                if b == b'%' || !text.is_ascii() || (pattern >> (i % 3)) % 2 == 0 {
                    let pair = if i % 2 == 0 { format!("%{:02x}", b) } else { format!("%{:02X}", b) };
                    encoded.extend(pair.bytes());
                } else {
                    encoded.push(b);
                }
            }
            let encoded = String::from_utf8(encoded).unwrap();
            assert_eq!(percent_decode(&encoded), some(text), "{:?}", encoded);
        }
    }
    assert_eq!(percent_decode("\u{e9}%c3%A9e%25"), some("\u{e9}\u{e9}e%"));
}

#[test]
fn quoting_for_the_shell() {
    assert_eq!(shell_quote("a b"), "'a b'");
    assert_eq!(shell_quote(""), "''");
    assert_eq!(shell_quote("it's"), "'it'\\''s'");
    assert_eq!(shell_quote("''"), "''\\'''\\'''");
    assert_eq!(shell_quote("$(rm) \\ \"\n"), "'$(rm) \\ \"\n'");
}

/// Reads a word as a shell does that finds only single quotes and backslashes in it.
fn read_word(word: &str) -> Option<String> {
    let mut out = String::new();
    let mut quoted = false;
    let mut chars = word.chars();
    while let Some(c) = chars.next() {
        if c == '\'' {
            quoted = !quoted;
        } else if quoted {
            out.push(c);
        } else if c == '\\' {
            out.push(chars.next()?);
        } else {
            return None;
        }
    }
    if quoted {
        None
    } else {
        Some(out)
    }
}

#[test]
fn quoted_words_read_back() {
    for text in ["", "a", "'", "it's", "''", "a\\'b", "$x `y` \n", "é'"] {
        assert_eq!(read_word(&shell_quote(text)), some(text));
    }
}

#[test]
fn decimal_notation_reads_back() {
    use_decimal(0, "0");
    use_decimal(9, "9");
    use_decimal(10, "10");
    use_decimal(u64::MAX, "18446744073709551615");
}

fn use_decimal(n: u64, text: &str) {
    assert_eq!(gte_services::number::decimal_text(n), text);
    let chars: Vec<char> = text.chars().collect();
    assert_eq!(gte_services::number::read_unsigned(&chars, u64::MAX), Some(n));
    if n > 0 {
        assert_eq!(gte_services::number::read_unsigned(&chars, n - 1), None);
    }
}

#[test]
fn link_targets() {
    assert_eq!(markdown_path_target("/a/b.png"), "/a/b.png");
    assert_eq!(markdown_path_target("/a b.png"), "</a b.png>");
    assert_eq!(markdown_path_target("/a\u{a0}b.png"), "</a\u{a0}b.png>");
    for c in ['(', ')', '<', '>'] {
        assert_eq!(markdown_path_target(&format!("/a{}", c)), format!("</a{}>", c));
    }
    assert_eq!(markdown_path_target(""), "");
    assert_eq!(image_markdown(12, "/a.png"), "[Image #12](/a.png)");
    assert_eq!(image_markdown(0, "/a .png"), "[Image #0](</a .png>)");
}

const OPTIONS: [&str; 10] = [
    "-o",
    "BatchMode=yes",
    "-o",
    "ConnectTimeout=5",
    "-o",
    "ConnectionAttempts=1",
    "-o",
    "ServerAliveInterval=3",
    "-o",
    "ServerAliveCountMax=1",
];

#[test]
fn commands() {
    let mut expected = strings(&OPTIONS);
    expected.extend(strings(&["me@h", "printf %s \"$HOME\""]));
    let command = remote_home("me@h");
    assert_eq!(command.program, "ssh");
    assert_eq!(command.args, expected);

    let command = remote_path_exists("me@h", "/a'b");
    assert_eq!(command.program, "ssh");
    assert_eq!(command.args[..10], strings(&OPTIONS));
    assert_eq!(command.args[10..], strings(&["me@h", "test -e -- '/a'\\''b'"]));

    let command = create_remote_dir("me@h", "/a b");
    assert_eq!(command.program, "ssh");
    assert_eq!(command.args[10..], strings(&["me@h", "mkdir -p -- '/a b'"]));

    let command = upload_file("me@h", "/tmp/x.png", "/r/x.png");
    assert_eq!(command.program, "scp");
    assert_eq!(command.args[0], "-q");
    assert_eq!(command.args[1..11], strings(&OPTIONS));
    assert_eq!(command.args[11..], strings(&["/tmp/x.png", "me@h:'/r/x.png'"]));
}

fn exited(success: bool, stdout: &[u8], stderr: &[u8]) -> CommandOutput {
    CommandOutput::Exited { success, stdout: stdout.to_vec(), stderr: stderr.to_vec() }
}

#[test]
fn remote_home_answers() {
    assert_eq!(read_remote_home(&exited(true, b" /home/me\n", b"")).unwrap(), "/home/me");
    assert_eq!(read_remote_home(&exited(true, b"/h\xff", b"")).unwrap(), "/h\u{fffd}");
    assert_eq!(read_remote_home(&exited(true, b" \n", b"")).unwrap_err(), "remote home is empty");
    assert_eq!(
        read_remote_home(&exited(false, b"/h", b"denied\n")).unwrap_err(),
        "failed to read remote home: denied"
    );
    assert_eq!(
        read_remote_home(&CommandOutput::NotRun("not found".to_string())).unwrap_err(),
        "failed to run ssh: not found"
    );
    assert_eq!(default_image_dir("/home/me//"), "/home/me/.tmp/.zapet/images");
    assert_eq!(default_image_dir("/"), "/.tmp/.zapet/images");
}

#[test]
fn candidates_and_allocation() {
    let path = |suffix| candidate_path("/img/", "image-1", "png", suffix);
    assert_eq!(path(0), "/img/image-1.png");
    assert_eq!(path(1), "/img/image-1-2.png");
    assert_eq!(path(999), "/img/image-1-1000.png");
    let mut all: Vec<String> = (0..1000).map(path).collect();
    all.sort();
    all.dedup();
    assert_eq!(all.len(), 1000);

    let step = |suffix, status: CommandStatus| {
        allocate_remote_path("/img", "t", "gif", suffix, &status)
    };
    assert!(matches!(step(0, CommandStatus::Exited(false)), Allocation::Allocated(p) if p == "/img/t.gif"));
    assert!(matches!(step(4, CommandStatus::Exited(false)), Allocation::Allocated(p) if p == "/img/t-5.gif"));
    assert!(matches!(step(0, CommandStatus::Exited(true)), Allocation::Next(1)));
    assert!(matches!(step(998, CommandStatus::Exited(true)), Allocation::Next(999)));
    assert!(matches!(step(999, CommandStatus::Exited(true)), Allocation::Failed(e) if e == "could not allocate remote image filename"));
    assert!(matches!(step(3, CommandStatus::NotRun("x".to_string())), Allocation::Failed(e) if e == "failed to run ssh: x"));
}

fn noon() -> LocalTime {
    LocalTime::new(2024, 2, 29, 12, 3, 4).unwrap()
}

#[test]
fn local_times() {
    let text = |y, m, d| LocalTime::new(y, m, d, 0, 0, 9).map(|t| t.hyphenated_text());
    assert_eq!(noon().hyphenated_text(), "2024-02-29-12-03-04");
    assert_eq!(text(7, 1, 1), some("0007-01-01-00-00-09"));
    assert_eq!(text(10000, 12, 31), some("+10000-12-31-00-00-09"));
    assert_eq!(text(-1, 12, 31), some("-0001-12-31-00-00-09"));
    assert_eq!(text(2023, 2, 29), None);
    assert!(LocalTime::new(2023, 1, 1, 24, 0, 0).is_none());
    assert!(LocalTime::new(2023, 1, 1, 0, 60, 0).is_none());
    assert!(LocalTime::new(2023, 1, 1, 0, 0, 60).is_none());
    assert_eq!(temporary_image_name(42, &noon()), "zapet-image-42-2024-02-29-12-03-04.png");
    assert_eq!(
        temporary_image_path(&Place::Posix { dir: "/tmp".to_string() }, 42, &noon()),
        "/tmp/zapet-image-42-2024-02-29-12-03-04.png"
    );
    assert_eq!(
        temporary_image_path(&Place::Other { path: "C:\\t\\x.png".to_string() }, 42, &noon()),
        "C:\\t\\x.png"
    );
}

#[test]
fn dates_are_those_of_chrono() {
    for y in [-262_144, -262_143, -400, -100, -4, 0, 1900, 2000, 2023, 2024, 262_142, 262_143] {
        for m in 0..14 {
            for d in [0, 1, 28, 29, 30, 31, 32] {
                let there = chrono::NaiveDate::from_ymd_opt(y, m, d).is_some();
                assert_eq!(LocalTime::new(y, m, d, 1, 2, 3).is_some(), there, "{} {} {}", y, m, d);
            }
        }
    }
}

fn start(remote_dir: Option<&str>, mode: OutputMode) -> UploadSession {
    UploadSession::start(Args {
        remote: "me@h".to_string(),
        remote_dir: remote_dir.map(|s| s.to_string()),
        number: 2,
        mode,
    })
}

fn failure(session: &UploadSession) -> String {
    match session.step() {
        UploadStep::Finished(Err(e)) => e.clone(),
        other => panic!("{:?}", other),
    }
}

fn text_event(text: &str) -> UploadEvent {
    UploadEvent::Text {
        text: Some(text.to_string()),
        host: Host::Posix { home: Some("/home/me".to_string()) },
    }
}

fn image_event(png: Option<Vec<u8>>) -> UploadEvent {
    UploadEvent::Image { png, place: Place::Posix { dir: "/tmp".to_string() }, pid: 9, time: noon() }
}

#[test]
fn upload_of_a_file() {
    let s = start(None, OutputMode::Stdout);
    assert!(matches!(s.step(), UploadStep::QueryHome { command } if command.args[11] == "printf %s \"$HOME\""));
    let s = s.advance(UploadEvent::Output(exited(true, b"/home/you/\n", b"")));
    assert!(matches!(s.step(), UploadStep::ReadText { remote_dir } if remote_dir == "/home/you/.tmp/.zapet/images"));
    let s = s.advance(text_event("~/pic.JPEG"));
    assert!(matches!(s.step(), UploadStep::CheckFile { file, .. } if file.text == "/home/me/pic.JPEG"));
    let s = s.advance(UploadEvent::IsFile(true));
    assert!(matches!(s.step(), UploadStep::ReadClock { source, .. }
        if source.extension == "jpg" && !source.remove_after_upload && source.local_path == "/home/me/pic.JPEG"));
    let s = s.advance(UploadEvent::Clock(noon()));
    assert!(matches!(s.step(), UploadStep::Probe { command, suffix: 0, .. }
        if command.args[11] == "test -e -- '/home/you/.tmp/.zapet/images/image-2024-02-29-12-03-04.jpg'"));
    let s = s.advance(UploadEvent::Status(CommandStatus::Exited(true)));
    assert!(matches!(s.step(), UploadStep::Probe { command, suffix: 1, .. }
        if command.args[11] == "test -e -- '/home/you/.tmp/.zapet/images/image-2024-02-29-12-03-04-2.jpg'"));
    let s = s.advance(UploadEvent::Status(CommandStatus::Exited(false)));
    assert!(matches!(s.step(), UploadStep::MakeDir { command, .. }
        if command.args[11] == "mkdir -p -- '/home/you/.tmp/.zapet/images'"));
    let s = s.advance(UploadEvent::Status(CommandStatus::Exited(true)));
    assert!(matches!(s.step(), UploadStep::Upload { command, .. } if command.args[11] == "/home/me/pic.JPEG"
        && command.args[12] == "me@h:'/home/you/.tmp/.zapet/images/image-2024-02-29-12-03-04-2.jpg'"));
    let s = s.advance(UploadEvent::Status(CommandStatus::Exited(true)));
    assert!(matches!(s.step(), UploadStep::Print { text }
        if text == "[Image #2](/home/you/.tmp/.zapet/images/image-2024-02-29-12-03-04-2.jpg)"));
    let s = s.advance(UploadEvent::Shown);
    assert!(matches!(s.step(), UploadStep::Finished(Ok(()))));
    let s = s.advance(UploadEvent::Shown);
    assert!(matches!(s.step(), UploadStep::Finished(Ok(()))));
}

#[test]
fn upload_of_clipboard_bytes() {
    let s = start(Some("/i mg"), OutputMode::Clipboard);
    let s = s.advance(text_event("/gone.png"));
    let s = s.advance(UploadEvent::IsFile(false));
    assert!(matches!(s.step(), UploadStep::ReadImage { .. }));
    let s = s.advance(image_event(Some(vec![1, 2, 3])));
    assert!(matches!(s.step(), UploadStep::WriteTemporary { path, bytes, .. }
        if path == "/tmp/zapet-image-9-2024-02-29-12-03-04.png" && *bytes == vec![1, 2, 3]));
    let s = s.advance(UploadEvent::Written(Ok(())));
    let s = s.advance(UploadEvent::Clock(noon()));
    let s = s.advance(UploadEvent::Status(CommandStatus::Exited(false)));
    let s = s.advance(UploadEvent::Status(CommandStatus::Exited(true)));
    let s = s.advance(UploadEvent::Status(CommandStatus::Exited(true)));
    assert!(matches!(s.step(), UploadStep::Remove { path, .. } if path == "/tmp/zapet-image-9-2024-02-29-12-03-04.png"));
    let s = s.advance(UploadEvent::Removed);
    assert!(matches!(s.step(), UploadStep::Copy { text }
        if text == "[Image #2](</i mg/image-2024-02-29-12-03-04.png>)"));
    let s = s.advance(UploadEvent::Shown);
    assert!(matches!(s.step(), UploadStep::Finished(Ok(()))));
}

#[test]
fn failures_of_an_upload() {
    let status = |ok| UploadEvent::Status(CommandStatus::Exited(ok));
    let not_run = || UploadEvent::Status(CommandStatus::NotRun("gone".to_string()));
    assert_eq!(failure(&start(Some("img"), OutputMode::Stdout)), "remote image directory must be absolute");
    let s = start(None, OutputMode::Stdout);
    assert_eq!(failure(&s.advance(UploadEvent::Output(exited(true, b"home", b"")))), "remote image directory must be absolute");
    let s = start(None, OutputMode::Stdout);
    assert_eq!(failure(&s.advance(UploadEvent::Output(exited(true, b"", b"")))), "remote home is empty");

    let none = UploadEvent::Text { text: None, host: Host::Posix { home: None } };
    let s = start(Some("/i"), OutputMode::Stdout).advance(none);
    assert_eq!(failure(&s.advance(image_event(None))), "no image found in clipboard");
    let s = start(Some("/i"), OutputMode::Stdout).advance(text_event("words")).advance(image_event(Some(vec![])));
    assert_eq!(failure(&s.advance(UploadEvent::Written(Err("full".to_string())))), "failed to write temp image: full");

    let probing = || {
        start(Some("/i"), OutputMode::Stdout)
            .advance(text_event("/a.png"))
            .advance(UploadEvent::IsFile(true))
            .advance(UploadEvent::Clock(noon()))
    };
    assert_eq!(failure(&probing().advance(not_run())), "failed to run ssh: gone");
    let making = || probing().advance(status(false));
    assert_eq!(failure(&making().advance(not_run())), "failed to run ssh: gone");
    assert_eq!(failure(&making().advance(status(false))), "failed to create remote image directory");
    let copying = || making().advance(status(true));
    assert_eq!(failure(&copying().advance(not_run())), "failed to run scp: gone");
    assert_eq!(failure(&copying().advance(status(false))), "failed to upload image with scp");

    let mut s = probing();
    for _ in 0..999 {
        s = s.advance(status(true));
    }
    assert!(matches!(s.step(), UploadStep::Probe { suffix: 999, .. }));
    assert_eq!(failure(&s.advance(status(true))), "could not allocate remote image filename");
}

#[test]
fn upload_events_out_of_turn_change_nothing() {
    let s = start(Some("/i"), OutputMode::Stdout).advance(UploadEvent::Removed).advance(UploadEvent::Shown);
    assert!(matches!(s.step(), UploadStep::ReadText { remote_dir } if remote_dir == "/i"));
}
