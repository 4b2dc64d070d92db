//! A plan written down as configuration text.
use vstd::prelude::*;

use crate::migrate::names::duration_fits;
use crate::migrate::plan::{pairs_of, plan, plan_error, planned, warnings_of, Agh, PlanV};
use crate::migrate::plan::{Warning, WarningV};
use crate::text::{debug_of, debug_text, decimal, decimal_of, join, joined, opt_text, texts};

verus! {

/// A converted configuration.
#[derive(Debug)]
pub struct Migration {
    pub toml: String,
    pub warnings: Vec<String>,
    /// Content for the local list of user rules that the configuration names.
    pub user_rules: Option<String>,
}

/// The texts of a plan as they stand in the configuration, each quoted.
pub struct Quoted {
    pub bind: Vec<String>,
    pub allow: Vec<String>,
    pub list_dir: String,
    pub lists: Vec<(String, String)>,
    /// Path of the local list of user rules, where there is one.
    pub user_rules: Option<String>,
    pub servers: Vec<String>,
    pub bootstrap: Vec<String>,
    pub db_path: String,
    pub providers: Vec<String>,
}

/// Model of [`Quoted`].
#[verifier::ext_equal]
pub struct QuotedV {
    pub bind: Seq<Seq<char>>,
    pub allow: Seq<Seq<char>>,
    pub list_dir: Seq<char>,
    pub lists: Seq<(Seq<char>, Seq<char>)>,
    pub user_rules: Option<Seq<char>>,
    pub servers: Seq<Seq<char>>,
    pub bootstrap: Seq<Seq<char>>,
    pub db_path: Seq<char>,
    pub providers: Seq<Seq<char>>,
}

impl View for Quoted {
    type V = QuotedV;

    open spec fn view(&self) -> QuotedV {
        QuotedV {
            bind: texts(self.bind@),
            allow: texts(self.allow@),
            list_dir: self.list_dir@,
            lists: pairs_of(self.lists@),
            user_rules: opt_text(self.user_rules),
            servers: texts(self.servers@),
            bootstrap: texts(self.bootstrap@),
            db_path: self.db_path@,
            providers: texts(self.providers@),
        }
    }
}

/// One comment line per warning.
pub open spec fn warning_lines(ws: Seq<Seq<char>>) -> Seq<char>
    decreases ws.len(),
{
    if ws.len() == 0 {
        seq![]
    } else {
        warning_lines(ws.drop_last()) + "# WARNING: "@ + ws.last() + "\n"@
    }
}

/// Texts in brackets, with commas between them.
pub open spec fn array_text(v: Seq<Seq<char>>) -> Seq<char> {
    "["@ + join(v, ", "@) + "]"@
}

/// One table per list.
pub open spec fn list_tables(v: Seq<(Seq<char>, Seq<char>)>) -> Seq<char>
    decreases v.len(),
{
    if v.len() == 0 {
        seq![]
    } else {
        list_tables(v.drop_last()) + "\n[[filtering.lists]]\nname = "@ + v.last().0 + "\nurl = "@
            + v.last().1 + "\n"@
    }
}

/// The table of the local list.
pub open spec fn rules_table(path: Option<Seq<char>>) -> Seq<char> {
    match path {
        Some(p) => "\n[[filtering.lists]]\nname = \"user-rules\"\npath = "@ + p + "\n"@,
        None => seq![],
    }
}

/// The configuration's text.
pub open spec fn toml_text(q: QuotedV, warnings: Seq<Seq<char>>, timeout_ms: u64) -> Seq<char> {
    "# sumidero config — generated by `sumidero migrate` from AdGuardHome.yaml\n"@ + warning_lines(
        warnings,
    ) + "\n[server]\nbind = "@ + array_text(q.bind) + "\nallow = "@ + array_text(q.allow)
        + "\n\n[filtering]\nlist_dir = "@ + q.list_dir + "\n"@ + list_tables(q.lists) + rules_table(
        q.user_rules,
    ) + "\n[upstreams]\nservers = "@ + array_text(q.servers) + "\nbootstrap = "@ + array_text(
        q.bootstrap,
    ) + "\ntimeout_ms = "@ + decimal(timeout_ms as nat) + "\n\n[database]\npath = "@ + q.db_path
        + "\n\n[safe_search]\nenabled = "@ + (if q.providers.len() > 0 {
        "true"@
    } else {
        "false"@
    }) + "\nproviders = "@ + array_text(q.providers) + "\n"@
}

fn push_array(out: &mut String, v: &Vec<String>)
    ensures
        final(out)@ == old(out)@ + array_text(texts(v@)),
{
    out.push_str("[");
    out.push_str(joined(v, ", ").as_str());
    out.push_str("]");
    assert(out@ == old(out)@ + array_text(texts(v@)));
}

fn push_warnings(out: &mut String, ws: &Vec<String>)
    ensures
        final(out)@ == old(out)@ + warning_lines(texts(ws@)),
{
    let n: usize = ws.len();
    let ghost start = out@;
    let ghost all = texts(ws@);
    assert(start == start + warning_lines(all.take(0)));
    for i in 0..n
        invariant
            n == ws@.len(),
            all == texts(ws@),
            out@ == start + warning_lines(all.take(i as int)),
    {
        out.push_str("# WARNING: ");
        out.push_str(ws[i].as_str());
        out.push_str("\n");
        proof {
            let t = all.take(i + 1);
            assert(t.drop_last() == all.take(i as int));
            assert(t.last() == ws@[i as int]@);
            assert(out@ == start + warning_lines(t));
        }
    }
    assert(all.take(n as int) == all);
}

fn push_lists(out: &mut String, v: &Vec<(String, String)>)
    ensures
        final(out)@ == old(out)@ + list_tables(pairs_of(v@)),
{
    let n: usize = v.len();
    let ghost start = out@;
    let ghost all = pairs_of(v@);
    assert(start == start + list_tables(all.take(0)));
    for i in 0..n
        invariant
            n == v@.len(),
            all == pairs_of(v@),
            out@ == start + list_tables(all.take(i as int)),
    {
        out.push_str("\n[[filtering.lists]]\nname = ");
        out.push_str(v[i].0.as_str());
        out.push_str("\nurl = ");
        out.push_str(v[i].1.as_str());
        out.push_str("\n");
        proof {
            let t = all.take(i + 1);
            assert(t.drop_last() == all.take(i as int));
            assert(t.last() == (v@[i as int].0@, v@[i as int].1@));
            assert(out@ == start + list_tables(t));
        }
    }
    assert(all.take(n as int) == all);
}

/// Write down a configuration, given its texts quoted.
pub fn render(q: &Quoted, warnings: &Vec<String>, timeout_ms: u64) -> (r: String)
    ensures
        r@ == toml_text(q@, texts(warnings@), timeout_ms),
{
    let mut out =
        "# sumidero config — generated by `sumidero migrate` from AdGuardHome.yaml\n".to_string();
    push_warnings(&mut out, warnings);
    out.push_str("\n[server]\nbind = ");
    push_array(&mut out, &q.bind);
    out.push_str("\nallow = ");
    push_array(&mut out, &q.allow);
    out.push_str("\n\n[filtering]\nlist_dir = ");
    out.push_str(q.list_dir.as_str());
    out.push_str("\n");
    push_lists(&mut out, &q.lists);
    let ghost before = out@;
    if let Some(path) = &q.user_rules {
        out.push_str("\n[[filtering.lists]]\nname = \"user-rules\"\npath = ");
        out.push_str(path.as_str());
        out.push_str("\n");
    }
    assert(out@ == before + rules_table(q@.user_rules));
    out.push_str("\n[upstreams]\nservers = ");
    push_array(&mut out, &q.servers);
    out.push_str("\nbootstrap = ");
    push_array(&mut out, &q.bootstrap);
    out.push_str("\ntimeout_ms = ");
    out.push_str(decimal_of(timeout_ms).as_str());
    out.push_str("\n\n[database]\npath = ");
    out.push_str(q.db_path.as_str());
    out.push_str("\n\n[safe_search]\nenabled = ");
    if q.providers.len() > 0 {
        out.push_str("true");
    } else {
        out.push_str("false");
    }
    out.push_str("\nproviders = ");
    push_array(&mut out, &q.providers);
    out.push_str("\n");
    out
}

/// Each text as `{:?}` writes it.
pub open spec fn quoted_all(v: Seq<Seq<char>>) -> Seq<Seq<char>> {
    Seq::new(v.len(), |i: int| debug_text(v[i]))
}

pub open spec fn quoted_pairs(v: Seq<(Seq<char>, Seq<char>)>) -> Seq<(Seq<char>, Seq<char>)> {
    Seq::new(v.len(), |i: int| (debug_text(v[i].0), debug_text(v[i].1)))
}

/// A plan's texts, quoted.
pub open spec fn quoted(
    p: PlanV,
    list_dir: Seq<char>,
    db_path: Seq<char>,
    user_rules_path: Seq<char>,
) -> QuotedV {
    QuotedV {
        bind: quoted_all(p.bind),
        allow: quoted_all(p.allow),
        list_dir: debug_text(list_dir),
        lists: quoted_pairs(p.lists),
        user_rules: if p.user_rules is Some {
            Some(debug_text(user_rules_path))
        } else {
            None
        },
        servers: quoted_all(p.servers),
        bootstrap: quoted_all(p.bootstrap),
        db_path: debug_text(db_path),
        providers: quoted_all(p.providers),
    }
}

fn quote_all(v: &Vec<String>) -> (r: Vec<String>)
    ensures
        texts(r@) == quoted_all(texts(v@)),
{
    let mut out: Vec<String> = Vec::new();
    let n: usize = v.len();
    for i in 0..n
        invariant
            n == v@.len(),
            texts(out@) == quoted_all(texts(v@)).take(i as int),
    {
        let ghost before = out@;
        out.push(debug_of(v[i].as_str()));
        proof {
            assert(texts(out@) == texts(before).push(debug_text(v@[i as int]@)));
            let all = quoted_all(texts(v@));
            assert(all.take(i + 1) == all.take(i as int).push(all[i as int]));
        }
    }
    assert(quoted_all(texts(v@)).take(n as int) == quoted_all(texts(v@)));
    out
}

fn quote_pairs(v: &Vec<(String, String)>) -> (r: Vec<(String, String)>)
    ensures
        pairs_of(r@) == quoted_pairs(pairs_of(v@)),
{
    let mut out: Vec<(String, String)> = Vec::new();
    let n: usize = v.len();
    for i in 0..n
        invariant
            n == v@.len(),
            pairs_of(out@) == quoted_pairs(pairs_of(v@)).take(i as int),
    {
        let ghost before = out@;
        let pair = (debug_of(v[i].0.as_str()), debug_of(v[i].1.as_str()));
        out.push(pair);
        proof {
            assert(pairs_of(out@) == pairs_of(before).push((pair.0@, pair.1@)));
            let all = quoted_pairs(pairs_of(v@));
            assert(all.take(i + 1) == all.take(i as int).push(all[i as int]));
        }
    }
    assert(quoted_pairs(pairs_of(v@)).take(n as int) == quoted_pairs(pairs_of(v@)));
    out
}

/// Warnings in words.
pub open spec fn words_of(ws: Seq<WarningV>) -> Seq<Seq<char>> {
    Seq::new(ws.len(), |i: int| ws[i].words())
}

fn say(ws: &Vec<Warning>) -> (r: Vec<String>)
    ensures
        texts(r@) == words_of(warnings_of(ws@)),
{
    let mut out: Vec<String> = Vec::new();
    let n: usize = ws.len();
    for i in 0..n
        invariant
            n == ws@.len(),
            texts(out@) == words_of(warnings_of(ws@)).take(i as int),
    {
        let ghost before = out@;
        out.push(ws[i].message());
        proof {
            let all = words_of(warnings_of(ws@));
            assert(texts(out@) == texts(before).push(all[i as int]));
            assert(all.take(i + 1) == all.take(i as int).push(all[i as int]));
        }
    }
    assert(words_of(warnings_of(ws@)).take(n as int) == words_of(warnings_of(ws@)));
    out
}

/// Convert a configuration. The paths are written into the result.
pub fn convert(agh: &Agh, list_dir: &str, db_path: &str, user_rules_path: &str) -> (r: Result<
    Migration,
    String,
>)
    requires
        duration_fits(agh.dns.upstream_timeout@),
    ensures
        match r {
            Ok(m) => {
                let p = planned(*agh);
                plan_error(*agh) is None && texts(m.warnings@) == words_of(p.warnings) && opt_text(
                    m.user_rules,
                ) == p.user_rules && m.toml@ == toml_text(
                    quoted(p, list_dir@, db_path@, user_rules_path@),
                    words_of(p.warnings),
                    p.timeout_ms,
                )
            },
            Err(e) => plan_error(*agh) is Some && e@ == plan_error(*agh)->0,
        },
{
    let p = match plan(agh) {
        Ok(p) => p,
        Err(e) => {
            return Err(e);
        },
    };
    let ghost view = p@;
    let warnings = say(&p.warnings);
    let q = Quoted {
        bind: quote_all(&p.bind),
        allow: quote_all(&p.allow),
        list_dir: debug_of(list_dir),
        lists: quote_pairs(&p.lists),
        user_rules: if p.user_rules.is_some() {
            Some(debug_of(user_rules_path))
        } else {
            None
        },
        servers: quote_all(&p.servers),
        bootstrap: quote_all(&p.bootstrap),
        db_path: debug_of(db_path),
        providers: quote_all(&p.providers),
    };
    assert(q@ == quoted(view, list_dir@, db_path@, user_rules_path@));
    let toml = render(&q, &warnings, p.timeout_ms);
    Ok(Migration { toml, warnings, user_rules: p.user_rules })
}

/// Take in what loading the converted configuration came to: one that does
/// not load is never handed out.
pub fn conclude(migration: Migration, loaded: Result<(), String>) -> (r: Result<Migration, String>)
    ensures
        match loaded {
            Ok(_) => r is Ok && r->Ok_0 == migration,
            Err(e) => r is Err && r->Err_0@ == "generated config failed validation (bug): "@ + e@,
        },
{
    match loaded {
        Ok(_) => Ok(migration),
        Err(e) => {
            let mut out = "generated config failed validation (bug): ".to_string();
            out.push_str(e.as_str());
            Err(out)
        },
    }
}

/// A text has a part.
pub open spec fn holds_text(t: Seq<char>, part: Seq<char>) -> bool {
    exists|a: Seq<char>, b: Seq<char>| t == #[trigger] (a + part + b)
}

/// Every setting stands in the written configuration, in its table.
pub proof fn law_settings_written(q: QuotedV, warnings: Seq<Seq<char>>, timeout_ms: u64)
    ensures
        ({
            let t = toml_text(q, warnings, timeout_ms);
            let on = if q.providers.len() > 0 {
                "true"@
            } else {
                "false"@
            };
            &&& holds_text(
                t,
                "\n[server]\nbind = "@ + ("["@ + join(q.bind, ", "@) + "]"@) + "\nallow = "@ + ("["@
                    + join(q.allow, ", "@) + "]"@),
            )
            &&& holds_text(t, "\n\n[filtering]\nlist_dir = "@ + q.list_dir + "\n"@)
            &&& holds_text(t, list_tables(q.lists) + rules_table(q.user_rules))
            &&& holds_text(
                t,
                "\n[upstreams]\nservers = "@ + ("["@ + join(q.servers, ", "@) + "]"@)
                    + "\nbootstrap = "@ + ("["@ + join(q.bootstrap, ", "@) + "]"@)
                    + "\ntimeout_ms = "@ + decimal(timeout_ms as nat),
            )
            &&& holds_text(t, "\n\n[database]\npath = "@ + q.db_path)
            &&& holds_text(
                t,
                "\n\n[safe_search]\nenabled = "@ + on + "\nproviders = "@ + ("["@ + join(
                    q.providers,
                    ", "@,
                ) + "]"@) + "\n"@,
            )
            &&& holds_text(t, warning_lines(warnings))
        }),
{
    let t = toml_text(q, warnings, timeout_ms);
    let on = if q.providers.len() > 0 {
        "true"@
    } else {
        "false"@
    };
    let x1 = "# sumidero config — generated by `sumidero migrate` from AdGuardHome.yaml\n"@;
    let p1 = warning_lines(warnings);
    let x2 = x1 + p1;
    lemma_assoc(x2, "\n[server]\nbind = "@, array_text(q.bind));
    lemma_assoc(x2, "\n[server]\nbind = "@ + array_text(q.bind), "\nallow = "@);
    lemma_assoc(x2, "\n[server]\nbind = "@ + array_text(q.bind) + "\nallow = "@, array_text(q.allow));
    let p2 = "\n[server]\nbind = "@ + array_text(q.bind) + "\nallow = "@ + array_text(q.allow);
    let x3 = x2 + p2;
    lemma_assoc(x3, "\n\n[filtering]\nlist_dir = "@, q.list_dir);
    lemma_assoc(x3, "\n\n[filtering]\nlist_dir = "@ + q.list_dir, "\n"@);
    let p3 = "\n\n[filtering]\nlist_dir = "@ + q.list_dir + "\n"@;
    let x4 = x3 + p3;
    lemma_assoc(x4, list_tables(q.lists), rules_table(q.user_rules));
    let p4 = list_tables(q.lists) + rules_table(q.user_rules);
    let x5 = x4 + p4;
    lemma_assoc(x5, "\n[upstreams]\nservers = "@, array_text(q.servers));
    lemma_assoc(x5, "\n[upstreams]\nservers = "@ + array_text(q.servers), "\nbootstrap = "@);
    lemma_assoc(x5, "\n[upstreams]\nservers = "@ + array_text(q.servers) + "\nbootstrap = "@, array_text(q.bootstrap));
    lemma_assoc(x5, "\n[upstreams]\nservers = "@ + array_text(q.servers) + "\nbootstrap = "@ + array_text(q.bootstrap), "\ntimeout_ms = "@);
    lemma_assoc(x5, "\n[upstreams]\nservers = "@ + array_text(q.servers) + "\nbootstrap = "@ + array_text(q.bootstrap) + "\ntimeout_ms = "@, decimal(timeout_ms as nat));
    let p5 = "\n[upstreams]\nservers = "@ + array_text(q.servers) + "\nbootstrap = "@ + array_text(q.bootstrap) + "\ntimeout_ms = "@ + decimal(timeout_ms as nat);
    let x6 = x5 + p5;
    lemma_assoc(x6, "\n\n[database]\npath = "@, q.db_path);
    let p6 = "\n\n[database]\npath = "@ + q.db_path;
    let x7 = x6 + p6;
    lemma_assoc(x7, "\n\n[safe_search]\nenabled = "@, on);
    lemma_assoc(x7, "\n\n[safe_search]\nenabled = "@ + on, "\nproviders = "@);
    lemma_assoc(x7, "\n\n[safe_search]\nenabled = "@ + on + "\nproviders = "@, array_text(q.providers));
    lemma_assoc(x7, "\n\n[safe_search]\nenabled = "@ + on + "\nproviders = "@ + array_text(q.providers), "\n"@);
    let p7 = "\n\n[safe_search]\nenabled = "@ + on + "\nproviders = "@ + array_text(q.providers) + "\n"@;
    assert(t == x7 + p7);
    lemma_eight(x1, p1, p2, p3, p4, p5, p6, p7);
}

proof fn lemma_assoc(a: Seq<char>, b: Seq<char>, c: Seq<char>)
    ensures
        a + b + c == a + (b + c),
{
    assert(a + b + c =~= a + (b + c));
}

proof fn lemma_held(t: Seq<char>, p: Seq<char>, b: Seq<char>)
    requires
        holds_text(t, p),
    ensures
        holds_text(t + b, p),
{
    let (x, y) = choose|x: Seq<char>, y: Seq<char>| t == #[trigger] (x + p + y);
    assert(t + b =~= x + p + (y + b));
}

/// Parts in a row are held by what they make together.
proof fn lemma_eight(
    p0: Seq<char>,
    p1: Seq<char>,
    p2: Seq<char>,
    p3: Seq<char>,
    p4: Seq<char>,
    p5: Seq<char>,
    p6: Seq<char>,
    p7: Seq<char>,
)
    ensures
        ({
            let t = p0 + p1 + p2 + p3 + p4 + p5 + p6 + p7;
            &&& holds_text(t, p1) && holds_text(t, p2) && holds_text(t, p3) && holds_text(t, p4)
            &&& holds_text(t, p5) && holds_text(t, p6) && holds_text(t, p7)
        }),
{
    let (x1, x2) = (p0 + p1, p0 + p1 + p2);
    let (x3, x4) = (x2 + p3, x2 + p3 + p4);
    let (x5, x6) = (x4 + p5, x4 + p5 + p6);
    lemma_ends(p0, p1);
    lemma_ends(x1, p2);
    lemma_ends(x2, p3);
    lemma_ends(x3, p4);
    lemma_ends(x4, p5);
    lemma_ends(x5, p6);
    lemma_ends(x6, p7);
    lemma_held(x1, p1, p2);
    lemma_held(x2, p1, p3);
    lemma_held(x2, p2, p3);
    lemma_held(x3, p1, p4);
    lemma_held(x3, p2, p4);
    lemma_held(x3, p3, p4);
    lemma_held(x4, p1, p5);
    lemma_held(x4, p2, p5);
    lemma_held(x4, p3, p5);
    lemma_held(x4, p4, p5);
    lemma_held(x5, p1, p6);
    lemma_held(x5, p2, p6);
    lemma_held(x5, p3, p6);
    lemma_held(x5, p4, p6);
    lemma_held(x5, p5, p6);
    lemma_held(x6, p1, p7);
    lemma_held(x6, p2, p7);
    lemma_held(x6, p3, p7);
    lemma_held(x6, p4, p7);
    lemma_held(x6, p5, p7);
    lemma_held(x6, p6, p7);
}

proof fn lemma_ends(a: Seq<char>, p: Seq<char>)
    ensures
        holds_text(a + p, p),
{
    assert(a + p =~= a + p + Seq::<char>::empty());
}

/// Each list has a table with its name and URL, the user's own rules one with
/// their path, and each warning is a comment line, all in order.
pub proof fn law_tables_written(
    lists: Seq<(Seq<char>, Seq<char>)>,
    name: Seq<char>,
    url: Seq<char>,
    ws: Seq<Seq<char>>,
    w: Seq<char>,
)
    ensures
        list_tables(seq![]).len() == 0,
        list_tables(lists.push((name, url))) == list_tables(lists)
            + "\n[[filtering.lists]]\nname = "@ + name + "\nurl = "@ + url + "\n"@,
        rules_table(None).len() == 0,
        rules_table(Some(url)) == "\n[[filtering.lists]]\nname = \"user-rules\"\npath = "@ + url
            + "\n"@,
        warning_lines(seq![]).len() == 0,
        warning_lines(ws.push(w)) == warning_lines(ws) + "# WARNING: "@ + w + "\n"@,
{
    assert(lists.push((name, url)).drop_last() =~= lists);
    assert(ws.push(w).drop_last() =~= ws);
}

/// Everything that is written is quoted, each in its place; the user's rules
/// get a path exactly where there are any.
pub proof fn law_quoted(
    p: PlanV,
    list_dir: Seq<char>,
    db_path: Seq<char>,
    user_rules_path: Seq<char>,
)
    ensures
        ({
            let q = quoted(p, list_dir, db_path, user_rules_path);
            &&& q.bind.len() == p.bind.len()
            &&& forall|i: int|
                0 <= i < p.bind.len() ==> #[trigger] q.bind[i] == debug_text(p.bind[i])
            &&& q.allow.len() == p.allow.len()
            &&& forall|i: int|
                0 <= i < p.allow.len() ==> #[trigger] q.allow[i] == debug_text(p.allow[i])
            &&& q.lists.len() == p.lists.len()
            &&& forall|i: int|
                0 <= i < p.lists.len() ==> (#[trigger] q.lists[i]).0 == debug_text(p.lists[i].0)
                    && q.lists[i].1 == debug_text(p.lists[i].1)
            &&& q.servers.len() == p.servers.len()
            &&& forall|i: int|
                0 <= i < p.servers.len() ==> #[trigger] q.servers[i] == debug_text(p.servers[i])
            &&& q.bootstrap.len() == p.bootstrap.len()
            &&& forall|i: int|
                0 <= i < p.bootstrap.len() ==> #[trigger] q.bootstrap[i] == debug_text(
                    p.bootstrap[i],
                )
            &&& q.providers.len() == p.providers.len()
            &&& forall|i: int|
                0 <= i < p.providers.len() ==> #[trigger] q.providers[i] == debug_text(
                    p.providers[i],
                )
            &&& q.list_dir == debug_text(list_dir)
            &&& q.db_path == debug_text(db_path)
            &&& p.user_rules is Some ==> q.user_rules == Some(debug_text(user_rules_path))
            &&& p.user_rules is None ==> q.user_rules is None
        }),
{
}

} // verus!
