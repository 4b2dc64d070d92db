//! The safe-search rewrite table.

use sumidero::safesearch::{SafeSearch, TWO_PART_TLDS};

// ── Constructor ──────────────────────────────────────────────────

#[test]
fn disabled_returns_none_for_everything() {
    let ss = SafeSearch::new(false, &[]).unwrap();
    assert!(ss.rewrite("www.google.com").is_none());
    assert!(ss.rewrite("www.youtube.com").is_none());
    assert!(ss.rewrite("www.bing.com").is_none());
    assert!(ss.rewrite("duckduckgo.com").is_none());
}

#[test]
fn unknown_provider_fails_loud() {
    let err = SafeSearch::new(true, &["google", "altavista"]).unwrap_err();
    let msg = err.message();
    assert!(
        msg.contains("altavista"),
        "error should name the bad provider: {msg}"
    );
    assert!(msg.contains("google"), "error should list supported: {msg}");
    assert!(
        msg.contains("youtube"),
        "error should list supported: {msg}"
    );
}

#[test]
fn empty_providers_enables_all() {
    let ss = SafeSearch::new(true, &[]).unwrap();
    assert!(ss.rewrite("www.google.com").is_some());
    assert!(ss.rewrite("www.youtube.com").is_some());
    assert!(ss.rewrite("www.bing.com").is_some());
    assert!(ss.rewrite("duckduckgo.com").is_some());
}

#[test]
fn subset_only_rewrites_that_subset() {
    let ss = SafeSearch::new(true, &["bing"]).unwrap();
    assert_eq!(ss.rewrite("www.bing.com"), Some("strict.bing.com"));
    assert!(ss.rewrite("www.google.com").is_none());
    assert!(ss.rewrite("www.youtube.com").is_none());
    assert!(ss.rewrite("duckduckgo.com").is_none());
}

// ── Google mappings ──────────────────────────────────────────────

#[test]
fn google_www_dot_google_com() {
    let ss = SafeSearch::new(true, &["google"]).unwrap();
    assert_eq!(
        ss.rewrite("www.google.com"),
        Some("forcesafesearch.google.com")
    );
}

#[test]
fn google_country_tld_simple() {
    let ss = SafeSearch::new(true, &["google"]).unwrap();
    for tld in ["de", "fr", "es", "it", "ru", "ca"] {
        let name = format!("www.google.{tld}");
        assert_eq!(
            ss.rewrite(&name),
            Some("forcesafesearch.google.com"),
            "should rewrite {name}"
        );
    }
}

#[test]
fn google_two_part_tlds() {
    let ss = SafeSearch::new(true, &["google"]).unwrap();
    for tld in TWO_PART_TLDS {
        let name = format!("www.google.{tld}");
        assert_eq!(
            ss.rewrite(&name),
            Some("forcesafesearch.google.com"),
            "should rewrite {name}"
        );
    }
}

#[test]
fn google_bare_domain_no_www() {
    let ss = SafeSearch::new(true, &["google"]).unwrap();
    assert!(ss.rewrite("google.com").is_none());
}

#[test]
fn google_evil_prefix() {
    let ss = SafeSearch::new(true, &["google"]).unwrap();
    assert!(ss.rewrite("evil-www.google.com").is_none());
}

#[test]
fn google_evil_suffix() {
    let ss = SafeSearch::new(true, &["google"]).unwrap();
    assert!(ss.rewrite("www.google.evil.com").is_none());
}

#[test]
fn google_too_long_tld() {
    let ss = SafeSearch::new(true, &["google"]).unwrap();
    // 7 alpha chars — exceeds the 2–6 rule.
    assert!(ss.rewrite("www.google.notatld").is_none());
}

#[test]
fn google_dotted_evil() {
    let ss = SafeSearch::new(true, &["google"]).unwrap();
    assert!(ss.rewrite("www.google.com.evil.com").is_none());
}

#[test]
fn google_single_char_tld_rejected() {
    let ss = SafeSearch::new(true, &["google"]).unwrap();
    assert!(ss.rewrite("www.google.x").is_none());
}

#[test]
fn google_numeric_tld_rejected() {
    let ss = SafeSearch::new(true, &["google"]).unwrap();
    assert!(ss.rewrite("www.google.123").is_none());
}

// ── YouTube mappings ─────────────────────────────────────────────

#[test]
fn youtube_all_domains() {
    let ss = SafeSearch::new(true, &["youtube"]).unwrap();
    let domains = [
        "www.youtube.com",
        "m.youtube.com",
        "youtubei.googleapis.com",
        "youtube.googleapis.com",
        "www.youtube-nocookie.com",
    ];
    for d in domains {
        assert_eq!(
            ss.rewrite(d),
            Some("restrictmoderate.youtube.com"),
            "should rewrite {d}"
        );
    }
}

// ── Bing mapping ─────────────────────────────────────────────────

#[test]
fn bing_rewrite() {
    let ss = SafeSearch::new(true, &["bing"]).unwrap();
    assert_eq!(ss.rewrite("www.bing.com"), Some("strict.bing.com"));
}

// ── DuckDuckGo mappings ──────────────────────────────────────────

#[test]
fn duckduckgo_both_forms() {
    let ss = SafeSearch::new(true, &["duckduckgo"]).unwrap();
    assert_eq!(ss.rewrite("duckduckgo.com"), Some("safe.duckduckgo.com"));
    assert_eq!(
        ss.rewrite("www.duckduckgo.com"),
        Some("safe.duckduckgo.com")
    );
}

// ── Non-matching names ───────────────────────────────────────────

#[test]
fn unrelated_domain_not_rewritten() {
    let ss = SafeSearch::new(true, &[]).unwrap();
    assert!(ss.rewrite("example.com").is_none());
    assert!(ss.rewrite("www.example.com").is_none());
    assert!(ss.rewrite("google.com").is_none());
}

#[test]
fn endpoints_are_not_rewritten() {
    let s = SafeSearch::new(true, &[]).unwrap();
    for name in [
        "www.google.com",
        "www.youtube.com",
        "www.bing.com",
        "duckduckgo.com",
    ] {
        let target = s.rewrite(name).unwrap();
        assert_eq!(s.rewrite(target), None, "{target}");
    }
}
