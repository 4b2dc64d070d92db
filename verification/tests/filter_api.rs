//! Engine API surface: detach, introspection, Display, edge engines.

use sumidero::filter::{EngineBuilder, IssueReason, OwnedVerdict, Verdict, parse_list};

fn engine_of(lists: &[&str]) -> sumidero::filter::Engine {
    let mut builder = EngineBuilder::new();
    for list in lists {
        let parsed = parse_list(list);
        assert!(parsed.issues.is_empty(), "{:?}", parsed.issues);
        builder.add_list(parsed.rules);
    }
    builder.build()
}

#[test]
fn detach_block_carries_list_line_and_text() {
    let engine = engine_of(&["! header\n||example.com^"]);
    let v = engine.verdict("sub.example.com").detach();
    assert_eq!(
        v,
        OwnedVerdict::Block(sumidero::filter::RuleHit {
            list: 0,
            line: 2,
            text: "||example.com^".to_string(),
        })
    );
}

#[test]
fn detach_nomatch_and_except() {
    let engine = engine_of(&["@@example.com"]);
    assert_eq!(engine.verdict("other.com").detach(), OwnedVerdict::NoMatch);
    assert!(matches!(
        engine.verdict("example.com").detach(),
        OwnedVerdict::Except(_)
    ));
}

#[test]
fn empty_engine_matches_nothing() {
    let engine = EngineBuilder::new().build();
    assert_eq!(engine.verdict("example.com"), Verdict::NoMatch);
    assert_eq!(engine.rule_count(), 0);
    assert_eq!(engine.list_count(), 0);
}

#[test]
fn engine_with_empty_list_matches_nothing() {
    let engine = engine_of(&["! only a comment"]);
    assert_eq!(engine.verdict("example.com"), Verdict::NoMatch);
    assert_eq!(engine.rule_count(), 0);
    assert_eq!(engine.list_count(), 1);
}

#[test]
fn three_lists_report_correct_indices() {
    let engine = engine_of(&["a.com", "b.com", "c.com"]);
    for (i, name) in ["a.com", "b.com", "c.com"].iter().enumerate() {
        match engine.verdict(name) {
            Verdict::Block { list, .. } => assert_eq!(list, i),
            v => panic!("expected block for {name}, got {v:?}"),
        }
    }
    assert_eq!(engine.rule_count(), 3);
    assert_eq!(engine.list_count(), 3);
}

#[test]
fn rule_count_sums_all_lists() {
    let engine = engine_of(&["a.com\nb.com", "||c.com^"]);
    assert_eq!(engine.rule_count(), 3);
    assert_eq!(engine.list_count(), 2);
}

#[test]
fn issue_reason_and_line_issue_display() {
    let parsed = parse_list("example.com##.banner");
    assert_eq!(parsed.issues.len(), 1);
    assert_eq!(
        parsed.issues[0].reason.message(),
        "cosmetic rule (not DNS filtering)"
    );
    assert_eq!(
        parsed.issues[0].message(),
        "line 1: example.com##.banner (cosmetic rule (not DNS filtering))"
    );
    assert_eq!(
        IssueReason::InvalidDomain.message(),
        "not a valid DNS name"
    );
}

#[test]
fn overlong_query_rejected_even_when_it_would_match() {
    // A >253-byte name that WOULD match `||com^` if the guard were absent:
    // this pins the guard itself, not the absence of rules.
    let engine = engine_of(&["||com^"]);
    let long = format!("{}.com", "a".repeat(250));
    assert!(long.len() > 253);
    assert_eq!(engine.verdict(&long), Verdict::NoMatch);
    // At exactly 253 bytes the same shape matches.
    let ok = format!("{}.com", "a".repeat(249));
    assert_eq!(ok.len(), 253);
    assert!(matches!(engine.verdict(&ok), Verdict::Block { .. }));
}

#[test]
fn streamed_add_matches_batch_add() {
    let text = "! header\n||blocked.test^\n@@safe.blocked.test\n*.ads.net\n0.0.0.0 hosts.test\nexample.com##.banner\n";
    let mut batch = EngineBuilder::new();
    let parsed = parse_list(text);
    let batch_issues = parsed.issues.len();
    batch.add_list(parsed.rules);
    let batch = batch.build();

    let mut streamed = EngineBuilder::new();
    let added = streamed.add_list_text(text);
    let streamed = streamed.build();

    assert_eq!(added.index, 0);
    assert_eq!(added.rules, batch.rule_count());
    assert_eq!(added.issues.len(), batch_issues);
    for name in [
        "blocked.test",
        "sub.blocked.test",
        "safe.blocked.test",
        "x.ads.net",
        "hosts.test",
        "sub.hosts.test",
        "unrelated.org",
    ] {
        assert_eq!(
            batch.verdict(name).detach(),
            streamed.verdict(name).detach(),
            "{name}"
        );
    }
}

#[test]
fn an_engine_without_lists_counts_nothing() {
    let engine = engine_of(&[]);
    assert_eq!((engine.rule_count(), engine.list_count()), (0, 0));
    let engine = engine_of(&["", "! only a comment"]);
    assert_eq!((engine.rule_count(), engine.list_count()), (0, 2));
}

#[test]
fn spelling_does_not_change_the_kind_of_verdict() {
    let engine = engine_of(&["||blocked.test^\n@@safe.blocked.test\n*.ads.net"]);
    let kind = |name: &str| match engine.verdict(name) {
        Verdict::NoMatch => 0,
        Verdict::Block { .. } => 1,
        Verdict::Except { .. } => 2,
    };
    for (name, expected) in [
        ("sub.blocked.test", 1),
        ("safe.blocked.test", 2),
        ("x.ads.net", 1),
        ("other.org", 0),
        ("", 0),
    ] {
        let upper = name.to_ascii_uppercase();
        for spelling in [name.to_string(), format!("{name}."), format!("{upper}."), upper] {
            assert_eq!(kind(&spelling), expected, "{spelling}");
        }
    }
    // One dot is dropped, not two.
    assert_eq!(kind("sub.blocked.test.."), 0);
}

#[test]
fn joined_texts_parse_one_after_the_other() {
    let a = "! header\n||one.test^\nexample.com##.banner\r";
    let b = "0.0.0.0 two.test three.test\r\n\n/regex/\n@@four.test";
    let lines = a.lines().count() as u32;
    let (first, second) = (parse_list(a), parse_list(b));
    let joined = parse_list(&format!("{a}\n{b}"));
    let mut rules = first.rules.clone();
    rules.extend(second.rules.into_iter().map(|mut r| {
        r.line += lines;
        r
    }));
    let mut issues = first.issues.clone();
    issues.extend(second.issues.into_iter().map(|mut i| {
        i.line += lines;
        i
    }));
    assert_eq!(joined.rules, rules);
    assert_eq!(joined.issues, issues);
    assert_eq!(joined.rules.last().unwrap().line, 7);
}

#[test]
fn the_first_match_is_reported() {
    let engine = engine_of(&[
        "||b.com^\n*.b.com\nx.b.com\n||com^\n@@||safe.com^\n@@w*.safe.com\n@@www.safe.com",
        "x.b.com\n||com^",
    ]);
    let hit = |name: &str| match engine.verdict(name).detach() {
        OwnedVerdict::NoMatch => None,
        OwnedVerdict::Block(hit) | OwnedVerdict::Except(hit) => Some((hit.list, hit.line)),
    };
    // Exact before subtree, the shortest domain before longer ones, subtree
    // before wildcard; the list added first where both have the rule.
    assert_eq!(hit("x.b.com"), Some((0, 3)));
    assert_eq!(hit("y.b.com"), Some((0, 4)));
    assert_eq!(hit("www.safe.com"), Some((0, 7)));
    assert_eq!(hit("web.safe.com"), Some((0, 5)));
    assert_eq!(hit("other.org"), None);
    // Spelling does not change it.
    for name in ["x.b.com", "y.b.com", "www.safe.com", "other.org"] {
        let upper = name.to_ascii_uppercase();
        for spelling in [format!("{name}."), format!("{upper}."), upper] {
            assert_eq!(engine.verdict(&spelling), engine.verdict(name), "{spelling}");
        }
    }
}

#[test]
fn spreading_rules_over_lists_keeps_the_kind_of_verdict() {
    let one = engine_of(&["||a.test^\n@@b.a.test\n*.ads.net"]);
    let three = engine_of(&["*.ads.net", "@@b.a.test", "||a.test^"]);
    for name in ["a.test", "x.a.test", "b.a.test", "y.ads.net", "other.org"] {
        assert_eq!(
            matches!(one.verdict(name), Verdict::Block { .. }),
            matches!(three.verdict(name), Verdict::Block { .. }),
            "{name}"
        );
        assert_eq!(
            matches!(one.verdict(name), Verdict::Except { .. }),
            matches!(three.verdict(name), Verdict::Except { .. }),
            "{name}"
        );
    }
}
