//! Blocklist acquisition, engine building, provenance.

use std::collections::HashMap;

use sumidero::config::ListSource;
use sumidero::filter::Verdict;
use sumidero::lists::fetch::{step, FetchAction, FetchEvent, FetchState};
use sumidero::lists::{
    acquire_list, after_failed_fetch, after_read, after_store, check_list_dir, creates_list_dir,
    etag_file, etag_to_send, judge_body, judge_status, judge_stored, stored_file, Acquisition,
    EtagStep, ListError, LoadedLists, Loader, StatusStep,
};

/// Files by path.
type Disk = HashMap<String, String>;

/// What a server answers: a status, an `ETag` and a body.
struct Server {
    status: u16,
    etag: Option<&'static str>,
    body: &'static str,
}

fn stored_path(name: &str) -> String {
    format!("/lists/{}", stored_file(name))
}

fn read(disk: &Disk, name: &str, path: &str) -> Result<String, ListError> {
    let found = disk.get(path).cloned().ok_or("no such file".to_string());
    after_read(name, path, found)
}

fn fetch(disk: &mut Disk, server: &Server, name: &str) -> Result<String, String> {
    let etag_path = format!("/lists/{}", etag_file(name));
    let sent = etag_to_send(disk.get(&etag_path).map(String::as_str));
    let status = match (sent, server.etag) {
        (Some(sent), Some(etag)) if sent == etag => 304,
        _ => server.status,
    };
    let mut state = FetchState::Asked;
    let mut event = FetchEvent::Replied {
        status,
        words: format!("{status} Words"),
        etag: server.etag.map(str::to_string),
    };
    loop {
        let (next, action) = step(state, event);
        state = next;
        event = match action {
            FetchAction::Finish(result) => return result,
            FetchAction::ReadStored => FetchEvent::Stored(
                disk.get(&stored_path(name))
                    .cloned()
                    .ok_or("no such file".to_string()),
            ),
            FetchAction::ReadBody => FetchEvent::Body(server.body.to_string()),
            FetchAction::Store(body) => {
                disk.insert(stored_path(name), body);
                FetchEvent::Written(true)
            }
            FetchAction::WriteEtag(etag) => {
                disk.insert(etag_path.clone(), etag);
                FetchEvent::Tagged
            }
            FetchAction::RemoveEtag => {
                disk.remove(&etag_path);
                FetchEvent::Tagged
            }
        };
    }
}

fn load(
    sources: &[ListSource],
    disk: &mut Disk,
    server: Option<&Server>,
) -> Result<LoadedLists, ListError> {
    let mut loader = Loader::new();
    for s in sources {
        let stored = stored_path(&s.name);
        let is_file = |disk: &Disk, path: &str| disk.contains_key(path);
        let seed = s.path.clone().unwrap_or_default();
        let (a, b) = (is_file(disk, &stored), is_file(disk, &seed));
        let mut next = acquire_list(s, &stored, server.is_none(), a, b);
        let text = loop {
            match next {
                Acquisition::Fail(e) => return Err(e),
                Acquisition::Read(path) => break read(disk, &s.name, &path)?,
                Acquisition::Fetch(url) => {
                    assert_eq!(Some(&url), s.url.as_ref());
                    match fetch(disk, server.unwrap(), &s.name) {
                        Ok(text) => break text,
                        Err(why) => {
                            let (a, b) = (is_file(disk, &stored), is_file(disk, &seed));
                            next = after_failed_fetch(s, &stored, a, b, why);
                        }
                    }
                }
            }
        };
        loader.load(&s.name, &text);
    }
    Ok(loader.finish())
}

fn list_content() -> &'static str {
    "||ads.example.com^\n||tracker.example.com^\n"
}

fn source(name: &str, url: Option<&str>, path: Option<&str>) -> ListSource {
    ListSource {
        name: name.to_string(),
        url: url.map(str::to_string),
        path: path.map(str::to_string),
    }
}

const URL: Option<&str> = Some("https://example.com/list.txt");

fn healthy(etag: Option<&'static str>) -> Server {
    Server {
        status: 200,
        etag,
        body: "||ads.example.com^\n||tracker.example.com^\n",
    }
}

fn failing() -> Server {
    Server {
        status: 500,
        etag: None,
        body: "",
    }
}

fn disk(files: &[(&str, &str)]) -> Disk {
    files
        .iter()
        .map(|(p, t)| (p.to_string(), t.to_string()))
        .collect()
}

fn failure(sources: &[ListSource], disk: &mut Disk, server: Option<&Server>) -> ListError {
    match load(sources, disk, server) {
        Ok(_) => panic!("expected an error"),
        Err(e) => e,
    }
}

#[test]
fn fresh_fetch_stores_body_and_etag() {
    let mut d = Disk::new();
    let s = [source("test-list", URL, None)];
    let result = load(&s, &mut d, Some(&healthy(Some("\"abc123\"")))).unwrap();
    assert_eq!(result.names, vec!["test-list"]);
    assert_eq!(result.rule_counts, vec![2]);
    assert!(d.contains_key("/lists/test-list.txt"));
    assert_eq!(d["/lists/test-list.etag"].trim(), "\"abc123\"");
}

#[test]
fn etag_304_reuses_stored_copy() {
    let mut d = Disk::new();
    let s = [source("test-list", URL, None)];
    let server = healthy(Some("\"v1\""));
    let r1 = load(&s, &mut d, Some(&server)).unwrap();
    let r2 = load(&s, &mut d, Some(&server)).unwrap();
    assert_eq!(r1.hash, r2.hash);
    assert_eq!(r2.rule_counts, vec![2]);
}

#[test]
fn fetch_fail_uses_stored_copy() {
    let mut d = disk(&[("/lists/test-list.txt", list_content())]);
    let s = [source("test-list", URL, None)];
    let result = load(&s, &mut d, Some(&failing())).unwrap();
    assert_eq!(result.rule_counts, vec![2]);
}

#[test]
fn fetch_fail_no_stored_copy_is_error() {
    let s = [source("test-list", URL, None)];
    let err = failure(&s, &mut Disk::new(), Some(&failing()));
    assert!(matches!(err, ListError::Unavailable { .. }));
    assert_eq!(
        err.message(),
        "list test-list: cannot fetch https://example.com/list.txt and no stored copy exists: HTTP 500 Words"
    );
}

#[test]
fn offline_mode_uses_stored_copy() {
    let mut d = disk(&[("/lists/test-list.txt", list_content())]);
    let s = [source("test-list", URL, None)];
    assert_eq!(load(&s, &mut d, None).unwrap().rule_counts, vec![2]);
}

#[test]
fn offline_mode_no_stored_copy_is_error() {
    let s = [source("test-list", URL, None)];
    match failure(&s, &mut Disk::new(), None) {
        ListError::Unavailable { reason, .. } => assert_eq!(reason, "offline"),
        other => panic!("expected Unavailable, got {other:?}"),
    }
}

#[test]
fn path_only_list_reads_file() {
    let mut d = disk(&[("/my/list.txt", list_content())]);
    let s = [source("local", None, Some("/my/list.txt"))];
    for server in [None, Some(&failing())] {
        assert_eq!(load(&s, &mut d, server).unwrap().rule_counts, vec![2]);
    }
}

#[test]
fn path_only_list_missing_file_is_error() {
    let s = [source("local", None, Some("/nonexistent/path.txt"))];
    let err = failure(&s, &mut Disk::new(), None);
    assert!(matches!(err, ListError::Read { .. }));
    assert_eq!(
        err.message(),
        "list local: cannot read /nonexistent/path.txt: no such file"
    );
}

#[test]
fn both_path_and_url_stored_copy_takes_precedence() {
    let mut d = disk(&[
        ("/lists/both.txt", "||stored.example.com^\n"),
        ("/seed.txt", "||seed.example.com^\n"),
    ]);
    let s = [source("both", URL, Some("/seed.txt"))];
    let result = load(&s, &mut d, Some(&failing())).unwrap();
    let verdict = result.engine.verdict("stored.example.com");
    assert!(matches!(verdict, Verdict::Block { .. }));
    let verdict_seed = result.engine.verdict("seed.example.com");
    assert!(matches!(verdict_seed, Verdict::NoMatch));
}

#[test]
fn both_path_and_url_path_seed_fallback() {
    let mut d = disk(&[("/seed.txt", "||seed.example.com^\n")]);
    let s = [source("both", URL, Some("/seed.txt"))];
    let result = load(&s, &mut d, Some(&failing())).unwrap();
    let verdict = result.engine.verdict("seed.example.com");
    assert!(matches!(verdict, Verdict::Block { .. }));
}

#[test]
fn no_source_is_error() {
    let s = [source("empty", None, None)];
    let err = failure(&s, &mut Disk::new(), None);
    assert!(matches!(err, ListError::NoSource { .. }));
    assert_eq!(err.message(), "list empty: has neither url nor path");
}

#[test]
fn hash_stability() {
    let mut d = disk(&[("/l.txt", list_content())]);
    let s = [source("stable", None, Some("/l.txt"))];
    let r1 = load(&s, &mut d, None).unwrap();
    let r2 = load(&s, &mut d, None).unwrap();
    assert_eq!(r1.hash, r2.hash);
    assert_eq!(r1.hash.len(), 64);
}

#[test]
fn hash_is_over_all_bytes_in_order() {
    let mut loader = Loader::new();
    loader.load("x", "a");
    loader.load("y", "bc");
    assert_eq!(
        loader.finish().hash,
        "ba7816bf8f01cfea414140de5dae2223b00361a396177a9cb410ff61f20015ad"
    );
}

#[test]
fn engine_blocks_domain_from_loaded_list() {
    let mut d = disk(&[("/lists/test-list.txt", list_content())]);
    let s = [source("test-list", URL, None)];
    let result = load(&s, &mut d, None).unwrap();
    assert!(matches!(
        result.engine.verdict("ads.example.com"),
        Verdict::Block { .. }
    ));
    assert!(matches!(
        result.engine.verdict("sub.tracker.example.com"),
        Verdict::Block { .. }
    ));
    assert!(matches!(
        result.engine.verdict("clean.example.com"),
        Verdict::NoMatch
    ));
}

#[test]
fn list_dir_missing_is_error() {
    let err = check_list_dir("/nonexistent", true, Ok(()), false, false).unwrap_err();
    assert!(matches!(err, ListError::ListDir(_)));
    assert_eq!(
        err.message(),
        "list_dir /nonexistent does not exist or is not writable"
    );
}

#[test]
fn names_and_rule_counts_in_order() {
    let mut d = disk(&[("/a.txt", "||a.com^\n"), ("/b.txt", "||b.com^\n||c.com^\n")]);
    let s = [
        source("alpha", None, Some("/a.txt")),
        source("beta", None, Some("/b.txt")),
    ];
    let result = load(&s, &mut d, None).unwrap();
    assert_eq!(result.names, vec!["alpha", "beta"]);
    assert_eq!(result.rule_counts, vec![1, 2]);
    let Verdict::Block { list, .. } = result.engine.verdict("x.c.com") else {
        panic!("expected a block");
    };
    assert_eq!(list, 1);
}

#[test]
fn parse_issues_reported() {
    let mut d = disk(&[("/i.txt", "||good.com^\nexample.com##.banner\n")]);
    let s = [source("issue-list", None, Some("/i.txt"))];
    let result = load(&s, &mut d, None).unwrap();
    assert_eq!(result.rule_counts, vec![1]);
    assert_eq!(result.issues.len(), 1);
    assert_eq!(result.issues[0].0, "issue-list");
    assert_eq!(result.issues[0].1.line, 2);
}

#[test]
fn offline_mode_path_seed_fallback() {
    let mut d = disk(&[("/seed.txt", "||seed.com^\n")]);
    let s = [source("seeded", URL, Some("/seed.txt"))];
    assert_eq!(load(&s, &mut d, None).unwrap().rule_counts, vec![1]);
}

#[test]
fn hash_differs_by_list_order() {
    let mut d = disk(&[("/a.txt", "||a.com^\n"), ("/b.txt", "||b.com^\n")]);
    let a = source("a", None, Some("/a.txt"));
    let b = source("b", None, Some("/b.txt"));
    let r_ab = load(&[a.clone(), b.clone()], &mut d, None).unwrap();
    let r_ba = load(&[b, a], &mut d, None).unwrap();
    assert_ne!(r_ab.hash, r_ba.hash, "hash must depend on list order");
}

#[test]
fn list_dir_not_writable_is_error_online() {
    let err = check_list_dir("/ro", false, Ok(()), true, false).unwrap_err();
    assert!(matches!(err, ListError::ListDir(_)));
    assert!(check_list_dir("/ro", true, Ok(()), true, false).is_ok());
}

#[test]
fn missing_list_dir_is_created_online() {
    assert!(creates_list_dir(false, false));
    assert!(!creates_list_dir(false, true));
    assert!(check_list_dir("/new", false, Ok(()), true, true).is_ok());
}

#[test]
fn missing_list_dir_is_not_created_offline() {
    assert!(!creates_list_dir(true, false));
    assert!(!creates_list_dir(true, true));
}

#[test]
fn uncreatable_list_dir_fails_loudly_with_the_os_error() {
    let err = check_list_dir("/f/x", false, Err("not a directory".into()), false, false);
    match err.unwrap_err() {
        ListError::ListDirCreate { path, reason } => {
            assert_eq!(path, "/f/x");
            assert_eq!(reason, "not a directory");
        }
        other => panic!("expected ListDirCreate, got {other:?}"),
    }
    let err = ListError::ListDirCreate {
        path: "/f/x".into(),
        reason: "no".into(),
    };
    assert_eq!(err.message(), "list_dir /f/x could not be created: no");
}

#[test]
fn error_page_is_not_stored() {
    let why = judge_body("<html>\n<body>login</body>\n").unwrap_err();
    assert_eq!(
        why,
        "fetched content contains no rules (2 rejected lines) — refusing to store it"
    );
    let server = Server {
        status: 200,
        etag: None,
        body: "<html>\n<body>login</body>\n",
    };
    let mut d = disk(&[("/lists/test-list.txt", list_content())]);
    let s = [source("test-list", URL, None)];
    assert_eq!(load(&s, &mut d, Some(&server)).unwrap().rule_counts, vec![2]);
    assert_eq!(d["/lists/test-list.txt"], list_content());
}

#[test]
fn etags() {
    assert_eq!(etag_to_send(Some(" \"v1\"\n")).unwrap(), "\"v1\"");
    assert_eq!(etag_to_send(Some(" \n")), None);
    assert_eq!(etag_to_send(None), None);
    assert_eq!(after_store(false, Some("e".into())), EtagStep::Remove);
    assert_eq!(after_store(false, None), EtagStep::Remove);
    assert_eq!(after_store(true, Some("e".into())), EtagStep::Write("e".into()));
    assert_eq!(after_store(true, None), EtagStep::Keep);
    assert_eq!(
        judge_stored(Err("gone".into())).unwrap_err(),
        "304 but stored copy unreadable: gone"
    );
}

#[test]
fn statuses() {
    for (status, ok) in [(199, false), (200, true), (299, true), (300, false), (404, false)] {
        assert_eq!(judge_status(status, "") == StatusStep::ReadBody, ok);
    }
    assert_eq!(
        judge_status(404, "404 Not Found"),
        StatusStep::Refuse("HTTP 404 Not Found".into())
    );
}

#[test]
fn fetch_steps() {
    let text = |s: &str| s.to_string();
    let replied = |status, etag: Option<&str>| FetchEvent::Replied {
        status,
        words: format!("{status} Words"),
        etag: etag.map(str::to_string),
    };
    let fetching = || FetchState::Fetching { etag: Some(text("e")) };
    let storing = |etag: Option<&str>| FetchState::Storing {
        body: text("a.com"),
        etag: etag.map(str::to_string),
    };
    let tagging = || FetchState::Tagging { body: text("a.com") };
    let over = |r: Result<&str, &str>| {
        let r = r.map(str::to_string).map_err(str::to_string);
        (FetchState::Over, FetchAction::Finish(r))
    };
    for (state, event, expected) in [
        (FetchState::Asked, FetchEvent::Failed(text("down")), over(Err("down"))),
        (FetchState::Asked, replied(500, None), over(Err("HTTP 500 Words"))),
        (
            FetchState::Asked,
            replied(304, None),
            (FetchState::Current, FetchAction::ReadStored),
        ),
        (FetchState::Asked, replied(200, Some("e")), (fetching(), FetchAction::ReadBody)),
        (
            FetchState::Current,
            FetchEvent::Stored(Ok(text("a.com"))),
            over(Ok("a.com")),
        ),
        (
            FetchState::Current,
            FetchEvent::Stored(Err(text("gone"))),
            over(Err("304 but stored copy unreadable: gone")),
        ),
        (fetching(), FetchEvent::Failed(text("cut")), over(Err("cut"))),
        (
            fetching(),
            FetchEvent::Body(text("a.com")),
            (storing(Some("e")), FetchAction::Store(text("a.com"))),
        ),
        (
            fetching(),
            FetchEvent::Body(text("<html>")),
            over(Err(
                "fetched content contains no rules (1 rejected lines) — refusing to store it",
            )),
        ),
        (
            storing(Some("e")),
            FetchEvent::Written(true),
            (tagging(), FetchAction::WriteEtag(text("e"))),
        ),
        (storing(None), FetchEvent::Written(true), over(Ok("a.com"))),
        (
            storing(Some("e")),
            FetchEvent::Written(false),
            (tagging(), FetchAction::RemoveEtag),
        ),
        (tagging(), FetchEvent::Tagged, over(Ok("a.com"))),
        (FetchState::Over, FetchEvent::Tagged, over(Err("out of step"))),
    ] {
        assert_eq!(step(state, event), expected);
    }
}
