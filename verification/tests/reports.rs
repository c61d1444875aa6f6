use wayward::attrib::{Cache, Identity};
use wayward::history::History;
use wayward::journal::{Candidate, Confidence, Output, Resolution};
use wayward::json::Json;
use wayward::listing::{paint, report, report_human, report_json, tally};
use wayward::render::{
    format_issued, human_age, issued, paint_confidence, plural, report_resolution, report_sessions,
    resolution_report_at, session_report_at,
};
use wayward::report::Report;
use wayward::resolve::{pending, question, resolution, write_down, write_down_at};
use wayward::revoke::{
    announcement, closing, is_affirmative, is_yes, next_step, not_deleted, rehearsed, scope, targets, Next,
    Revoker, Scope,
};
use wayward::risk::Risk;
use wayward::sessions::Session;
use wayward::store::Entry;
use wayward::table::Table;

/// With the interface in English the confirmation is `y`, and an `s` for a yes
/// in Spanish must not cancel in silence.
#[test]
fn el_si_en_castellano_confirma_igual_que_el_yes() {
    for afirmativo in ["y", "Y", "yes", "s", "S", "si", "sí", "SÍ", " s "] {
        assert!(is_affirmative(afirmativo), "«{afirmativo}» debería confirmar");
    }
}

#[test]
fn lo_demas_cancela() {
    for negativo in ["", "n", "no", "nope", "x", "yy", "quiza"] {
        assert!(!is_affirmative(negativo), "«{negativo}» no debería confirmar");
    }
}

#[test]
fn answers_are_compared_in_small_letters() {
    assert!(is_yes("yes") && is_yes("sí"));
    assert!(!is_yes("YES") && !is_yes(" y"));
    assert!(is_affirmative("\tYeS\r\n"));
}

fn row(table: &str, id: &str, value: &str, issued_at: Option<i64>) -> Entry {
    let mut permissions = Table::new();
    permissions.insert(String::new(), vec![value.to_string()]);
    Entry {
        table: table.to_string(),
        id: id.to_string(),
        permissions,
        data: Json::Null,
        details: Vec::new(),
        issued_at,
    }
}

fn obs() -> Identity {
    Identity {
        pid: Some(42),
        exe: Some("/usr/bin/obs".to_string()),
        cmdline: Some("obs".to_string()),
        comm: None,
    }
}

fn plain(j: &Json) -> serde_json::Value {
    match j {
        Json::Null => serde_json::Value::Null,
        Json::Bool(b) => serde_json::Value::from(*b),
        Json::Unsigned(n) => serde_json::Value::from(*n),
        Json::Negative(n) => serde_json::Value::from(*n),
        Json::Float(bits) => serde_json::Value::from(f64::from_bits(*bits)),
        Json::Str(s) => serde_json::Value::from(s.as_str()),
        Json::Array(items) => items.iter().map(plain).collect(),
        Json::Object(fields) => fields.iter().map(|(k, v)| (k.clone(), plain(v))).collect(),
    }
}

fn value(text: &str) -> serde_json::Value {
    serde_json::from_str(text).unwrap()
}

fn lines(report: Report) -> Vec<String> {
    match report {
        Report::Lines(lines) => lines,
        Report::Document(_) => panic!("a document"),
    }
}

fn document(report: Report) -> serde_json::Value {
    match report {
        Report::Document(value) => {
            let written = plain(&value);
            assert_eq!(value.pretty(), serde_json::to_string_pretty(&written).ok());
            written
        }
        Report::Lines(lines) => panic!("{lines:?}"),
    }
}

#[test]
fn phrases() {
    assert_eq!(plural(1, "table", "tables"), "table");
    assert_eq!(plural(0, "table", "tables"), "tables");
    assert_eq!(human_age(-1), "dated in the future");
    assert_eq!(human_age(0), "just now");
    assert_eq!(human_age(119), "just now");
    assert_eq!(human_age(120), "2 minutes ago");
    assert_eq!(human_age(3599), "59 minutes ago");
    assert_eq!(human_age(3600), "1 hour ago");
    assert_eq!(human_age(7200), "2 hours ago");
    assert_eq!(human_age(86399), "23 hours ago");
    assert_eq!(human_age(86400), "1 day ago");
    assert_eq!(human_age(172_800), "2 days ago");
    assert_eq!(issued(1_000, Some("D".to_string()), 1_120), "D (2 minutes ago)");
    assert_eq!(issued(-5, None, 0), "-5 (just now)");
    assert_eq!(format_issued(i64::MAX), "9223372036854775807 (dated in the future)");
    let shown = format_issued(1_786_207_593);
    assert!(shown.starts_with("2026-08-0") && shown.ends_with(')'), "{shown}");
}

#[test]
fn colours_stand_round_the_text() {
    assert_eq!(paint(Risk::High), "\u{1b}[1m\u{1b}[31mHIGH risk\u{1b}[39m\u{1b}[0m");
    assert_eq!(paint(Risk::Medium), "\u{1b}[33mMEDIUM risk\u{1b}[39m");
    assert_eq!(paint(Risk::Low), "\u{1b}[34mLOW risk\u{1b}[39m");
    assert_eq!(paint(Risk::Info), "\u{1b}[2mINFO risk\u{1b}[0m");
    assert_eq!(
        paint_confidence(Confidence::High),
        "\u{1b}[1m\u{1b}[32mhigh   \u{1b}[39m\u{1b}[0m"
    );
    assert_eq!(paint_confidence(Confidence::Medium), "\u{1b}[33mmedium \u{1b}[39m");
    assert_eq!(paint_confidence(Confidence::Low), "\u{1b}[2mlow    \u{1b}[0m");
}

fn bare(lines: &[String]) -> Vec<String> {
    let mut out = Vec::new();
    for line in lines {
        let mut text = line.clone();
        for code in ["\u{1b}[0m", "\u{1b}[1m", "\u{1b}[2m", "\u{1b}[31m", "\u{1b}[32m", "\u{1b}[33m", "\u{1b}[34m", "\u{1b}[39m"] {
            text = text.replace(code, "");
        }
        out.push(text);
    }
    out
}

#[test]
fn the_listing_goes_by_risk_and_then_by_age() {
    let mut detailed = row("screencast", "older", "yes", Some(10));
    detailed.details.push(("output".to_string(), "DP-1".to_string()));
    let entries = vec![
        row("wallpaper", "w", "yes", None),
        detailed,
        row("devices", "camera", "no", None),
        row("screencast", "newer", "YES", Some(20)),
        row("screencast", "undated", "ask", None),
    ];
    let mut cache = Cache::default();
    cache.observe("newer", obs(), "screencast", 1);
    let dates: Vec<String> = ["", "T10", "", "T20", ""].iter().map(|s| s.to_string()).collect();
    let shown = report_human(&entries, &cache, &dates);
    let rule = format!("  {}", "─".repeat(66));
    assert_eq!(
        bare(&shown),
        vec![
            "",
            "  Devices  (devices)   HIGH risk · nothing granted",
            "  access to input devices, camera and microphone",
            rule.as_str(),
            "    • camera   denied",
            "",
            "  ScreenCast  (screencast)   HIGH risk",
            "  continuous screen capture, resumable without asking again",
            rule.as_str(),
            "    • newer   obs",
            "      executable  /usr/bin/obs",
            "      granted     T20",
            "",
            "    • older   unattributed",
            "      granted     T10",
            "      output      DP-1",
            "",
            "    • undated   non-standard value",
            "",
            "  Wallpaper  (wallpaper)   LOW risk",
            "  changing the desktop wallpaper",
            rule.as_str(),
            "    • w   unattributed",
            "",
            "  Summary",
            "    5 permissions across 3 tables · 3 granted, 2 high risk · 1 denied · 2 unattributed",
            "",
            "  ! Unattributed permissions belong to native applications. The portal",
            "    derives the application identifier from the sandbox, so outside Flatpak",
            "    or Snap nothing records who asked for the permission: only a random",
            "    token that lets it resume access without ever asking again.",
            "",
            "    Run wayward watch and use the application again to start building the",
            "    map the system never keeps.",
            "",
        ]
    );
    assert_eq!(shown[4], "    \u{1b}[2m•\u{1b}[0m \u{1b}[1mcamera\u{1b}[0m   \u{1b}[32mdenied\u{1b}[39m");

    let counted = tally(&entries, &cache);
    assert_eq!(
        (counted.total, counted.tables, counted.granted, counted.denied, counted.high, counted.unattributed),
        (5, 3, 3, 1, 2, 2)
    );
}

#[test]
fn an_empty_listing_says_so() {
    assert_eq!(
        lines(report(&Vec::new(), &Cache::default(), false)),
        vec!["\n  \u{1b}[1mNothing to audit.\u{1b}[0m\n\n  No desktop-portal permission is granted on this machine.\n"]
    );
}

#[test]
fn a_refusal_changes_no_risk() {
    let mut entries = vec![row("screencast", "a", "yes", None)];
    let before = tally(&entries, &Cache::default());
    entries.push(row("camera", "b", "no", None));
    let after = tally(&entries, &Cache::default());
    assert_eq!(
        (before.granted, before.high, before.unattributed),
        (after.granted, after.high, after.unattributed)
    );
    assert_eq!((before.denied, after.denied), (0, 1));
    let shown = bare(&lines(report(&vec![row("camera", "b", "no", None)], &Cache::default(), false)));
    assert_eq!(
        shown[shown.len() - 2],
        "    1 permission across 1 table · 0 granted, 0 high risk · 1 denied · 0 unattributed"
    );
}

#[test]
fn the_listing_as_a_document() {
    let mut entry = row("screencast", "tok", "yes", Some(7));
    entry.permissions.insert("org.a".to_string(), vec!["no".to_string()]);
    entry.data = Json::Array(vec![Json::string("hyprland"), Json::Unsigned(3)]);
    let mut cache = Cache::default();
    cache.observe("tok", obs(), "screencast", 5);
    let other = row("odd", "x", "ask", None);
    let expected = value(
        r#"{"generated_at": 99, "permissions": [
            {"table": "screencast", "id": "tok", "risk": "high",
             "grants": "continuous screen capture, resumable without asking again",
             "decision": "granted", "apps": ["org.a"], "unattributed": false,
             "attribution": {"app": "obs", "exe": "/usr/bin/obs", "cmdline": "obs",
                             "first_seen": 5, "last_seen": 5},
             "issued_at": 7, "data": ["hyprland", 3]},
            {"table": "odd", "id": "x", "risk": "medium",
             "grants": "table missing from wayward's catalogue; review it by hand",
             "decision": "unknown", "apps": [], "unattributed": true,
             "attribution": null, "issued_at": null, "data": null}]}"#,
    );
    let entries = vec![entry, other];
    assert_eq!(plain(&report_json(&entries, &cache, 99)), expected);
    let stamped = document(report(&entries, &cache, true));
    assert_eq!(stamped["permissions"], expected["permissions"]);
    assert!(stamped["generated_at"].as_i64().unwrap() > 1_700_000_000);
}

#[test]
fn open_sessions_are_reported() {
    let sessions = vec![
        Session {
            path: "/s/1_72/obs1".to_string(),
            unique_name: ":1.72".to_string(),
            token: "obs1".to_string(),
            owner: Some(obs()),
        },
        Session {
            path: "/s/1_9/x".to_string(),
            unique_name: ":1.9".to_string(),
            token: "x".to_string(),
            owner: None,
        },
    ];
    let shown = lines(report_sessions(&sessions, false));
    assert_eq!(
        bare(&shown),
        vec![
            "\n  Open portal sessions   2 sessions\n",
            "    ● obs",
            "      exe       /usr/bin/obs",
            "      cmdline   obs",
            "      pid       42 · :1.72",
            "      session   /s/1_72/obs1",
            "",
            "    ● owner unresolved",
            "      session   /s/1_9/x",
            "",
            "  ! An open session is what capture runs on top of, not proof that capture is",
            "    happening this instant. It does mean the application can resume without",
            "    any further prompt.\n",
        ]
    );
    assert_eq!(
        shown[1],
        "    \u{1b}[31m●\u{1b}[39m \u{1b}[1m\u{1b}[32mobs\u{1b}[39m\u{1b}[0m"
    );
    assert_eq!(
        document(session_report_at(&sessions, true, 3)),
        value(
            r#"{"generated_at": 3, "sessions": [
                {"path": "/s/1_72/obs1", "unique_name": ":1.72", "token": "obs1",
                 "owner": {"pid": 42, "exe": "/usr/bin/obs", "cmdline": "obs", "comm": null}},
                {"path": "/s/1_9/x", "unique_name": ":1.9", "token": "x", "owner": null}]}"#
        )
    );
    assert_eq!(
        lines(report_sessions(&Vec::new(), false)),
        vec!["\n  \u{1b}[1mNothing open.\u{1b}[0m\n\n  No application currently holds an open desktop-portal session.\n"]
    );
}

fn candidate(label: &str, confidence: Confidence, offset: i64, evidence: &str) -> Candidate {
    Candidate {
        label: label.to_string(),
        exe: Some(format!("/usr/bin/{label}")),
        pid: Some(1),
        confidence,
        offset,
        evidence: evidence.to_string(),
        lines: 2,
    }
}

fn resolved(token: &str, issued_at: Option<i64>, candidates: Vec<Candidate>) -> Resolution {
    Resolution { token: token.to_string(), table: "screencast".to_string(), issued_at, candidates }
}

#[test]
fn what_was_recovered_is_reported() {
    let results = vec![
        resolved(
            "one",
            Some(1),
            vec![
                candidate("obs", Confidence::High, 0, "Screencast session created"),
                candidate("a-name-of-over-sixteen", Confidence::Medium, -12, &"x".repeat(90)),
                candidate("third", Confidence::Low, 5, ""),
                candidate("fourth", Confidence::Low, 6, ""),
            ],
        ),
        resolved("two", None, Vec::new()),
        resolved("three", Some(3), Vec::new()),
    ];
    let dates: Vec<String> = ["T1", "", "T3"].iter().map(|s| s.to_string()).collect();
    let shown = lines(resolution_report_at(&results, &dates, 1, Confidence::High, false, 0));
    let cut = format!("                     {}…", "x".repeat(83));
    assert_eq!(
        bare(&shown),
        vec![
            "",
            "  one   screencast · T1",
            "    obs              high     +0s   /usr/bin/obs",
            "                     Screencast session created",
            "    a-name-of-over-… medium  -12s   /usr/bin/a-name-of-over-sixteen",
            cut.as_str(),
            "    third            low      +5s   /usr/bin/third",
            "",
            "  two   screencast · no timestamp recorded",
            "    This table stores no grant time, so there is nothing to correlate against.\n",
            "  three   screencast · T3",
            "    No process logged anything in that window. The journal may not reach back that far.\n",
            "  ✓ 1 attribution written to the attribution map (high confidence or better).",
            "  These are correlations, not proof: a match means the process was logging at the moment the permission was filed.\n",
        ]
    );
    let unwritten = lines(report_resolution(&results, 0, Confidence::Low, false));
    assert_eq!(
        bare(&unwritten)[12],
        "  Nothing written. Re-run with --write to persist the attributions above."
    );
    assert_eq!(
        lines(report_resolution(&Vec::new(), 0, Confidence::Low, false)),
        vec!["\n  \u{1b}[1mNothing left to resolve.\u{1b}[0m\n\n  Every granted permission already has a name.\n"]
    );
    let short = vec![resolved("one", Some(1), vec![candidate("obs", Confidence::High, -1, "e")])];
    assert_eq!(
        document(resolution_report_at(&short, &vec![String::new()], 1, Confidence::Medium, true, 9)),
        value(
            r#"{"generated_at": 9, "written": 1, "min_confidence": "medium", "resolutions": [
                {"token": "one", "table": "screencast", "issued_at": 1, "candidates": [
                    {"label": "obs", "exe": "/usr/bin/obs", "pid": 1, "confidence": "high",
                     "offset": -1, "evidence": "e", "lines": 2}]}]}"#
        )
    );
}

#[test]
fn only_what_nobody_holds_is_looked_into() {
    let mut known = row("screencast", "known", "yes", Some(1));
    known.permissions.insert("org.a".to_string(), Vec::new());
    let entries = vec![
        row("screencast", "orphan", "yes", Some(1)),
        row("screencast", "denied", "no", Some(1)),
        known,
        row("screencast", "attributed", "yes", Some(1)),
        row("camera", "undated", "yes", None),
    ];
    let mut cache = Cache::default();
    cache.observe("attributed", obs(), "screencast", 1);
    let left: Vec<&str> = pending(&entries, &cache).iter().map(|e| e.id.as_str()).collect();
    assert_eq!(left, vec!["orphan", "undated"]);

    assert_eq!(question(&entries[0], 10).unwrap()[5], "@-9");
    assert!(question(&entries[4], 10).is_none());

    let answer = Output {
        success: true,
        stdout: br#"{"_COMM":"obs","__REALTIME_TIMESTAMP":"1000000","MESSAGE":"SCREENCAST"}"#.to_vec(),
        stderr: Vec::new(),
    };
    let found = resolution(&entries[0], 10, Some(&answer)).unwrap();
    assert_eq!((found.token.as_str(), found.issued_at), ("orphan", Some(1)));
    assert_eq!(found.candidates[0].confidence, Confidence::High);
    assert!(resolution(&entries[4], 10, None).unwrap().candidates.is_empty());
    let failed = Output { success: false, stdout: Vec::new(), stderr: b"no\n".to_vec() };
    assert_eq!(resolution(&entries[0], 10, Some(&failed)).unwrap_err(), "journalctl falló: no");
}

#[test]
fn only_the_confident_are_written_down() {
    let results = vec![
        resolved("sure", Some(1), vec![candidate("obs", Confidence::High, 0, "")]),
        resolved("unsure", Some(1), vec![candidate("vesktop", Confidence::Medium, 0, "")]),
        resolved("unknown", Some(1), Vec::new()),
    ];
    let mut cache = Cache::default();
    assert_eq!(write_down_at(&mut cache, &results, Confidence::High, &vec![5, 6, 7]), 1);
    let record = cache.get("sure").unwrap();
    assert_eq!(record.identity.comm.as_deref(), Some("obs"));
    assert_eq!(record.identity.pid, Some(1));
    assert_eq!((record.table.as_str(), record.first_seen), ("screencast", 5));
    assert!(cache.get("unsure").is_none() && cache.get("unknown").is_none());
    let mut kept = Cache::default();
    kept.observe("other", obs(), "camera", 1);
    write_down(&mut kept, &results, Confidence::Low);
    assert_eq!(kept.get("other").unwrap().last_seen, 1);
    assert_eq!(write_down(&mut cache, &results, Confidence::Low), 2);
    assert!(cache.get("unsure").unwrap().first_seen > 1_700_000_000);
}

fn ids(entries: &[Entry]) -> Vec<&str> {
    entries.iter().map(|e| e.id.as_str()).collect()
}

#[test]
fn what_is_revoked_is_what_was_asked_for() {
    let all = || vec![row("screencast", "a", "yes", None), row("camera", "b", "yes", None), row("devices", "a", "no", None)];
    let by_token = scope(Some("a".to_string()), Some("camera".to_string())).unwrap();
    assert!(by_token.only().is_none());
    assert_eq!(ids(&targets(&by_token, all()).unwrap()), vec!["a", "a"]);
    let missing = Scope::Token("z".to_string());
    assert_eq!(targets(&missing, all()).err().unwrap(), "no permission found with token \"z\"");

    let by_table = scope(None, Some("camera".to_string())).unwrap();
    assert_eq!(by_table.only(), Some("camera"));
    assert_eq!(targets(&by_table, all()).unwrap().len(), 3);
    assert_eq!(
        targets(&by_table, Vec::new()).err().unwrap(),
        "table \"camera\" has no permissions to revoke"
    );
    assert_eq!(scope(None, None).err().unwrap(), "give a token, or a table with --table");
}

#[test]
fn revoking_is_announced_and_confirmed() {
    let mut cache = Cache::default();
    cache.observe("a", obs(), "screencast", 1);
    let list = vec![row("screencast", "a", "yes", None), row("camera", "b", "yes", None)];
    assert_eq!(
        announcement(&list, &cache),
        vec![
            "\n  2 permissions will be revoked:\n",
            "    \u{1b}[1mscreencast\u{1b}[0m  a  (obs)",
            "    \u{1b}[1mcamera\u{1b}[0m  b  (unattributed)",
            "",
        ]
    );
    assert_eq!(next_step(true, true), Next::Stop);
    assert_eq!(next_step(false, true), Next::Proceed);
    assert_eq!(next_step(false, false), Next::Ask);
    assert_eq!(rehearsed(), "  \u{1b}[2m--dry-run:\u{1b}[0m nothing was touched.\n");
    assert_eq!(
        closing(1),
        vec![
            "  \u{1b}[32m✓\u{1b}[39m 1 permission revoked.\n",
            "  \u{1b}[2mThe application will ask for permission again next time it needs it.\u{1b}[0m\n",
        ]
    );
}

#[test]
fn the_log_is_written_before_anything_is_deleted() {
    let mut cache = Cache::default();
    cache.observe("a", obs(), "screencast", 1);
    let list = vec![row("screencast", "a", "yes", Some(3)), row("camera", "b", "yes", None)];
    let mut revoker = Revoker::new(list, cache, History::default());
    let first = revoker.next_at(10).unwrap();
    assert_eq!((first.table.as_str(), first.id.as_str()), ("screencast", "a"));
    assert_eq!(not_deleted(&first), "could not delete \"a\" from \"screencast\"");
    assert_eq!(revoker.history().revocations.len(), 1);
    assert_eq!(revoker.history().revocations[0].app.as_deref(), Some("obs"));
    assert_eq!(revoker.history().revocations[0].revoked_at, 10);
    assert_eq!(revoker.next().unwrap().id, "b");
    assert!(revoker.next().is_none());
    assert_eq!(revoker.history().revocations.len(), 2);
}

#[test]
fn a_failed_deletion_leaves_the_others_in_the_log() {
    let mut log = History::default();
    {
        let mut earlier =
            Revoker::new(vec![row("camera", "old", "yes", None)], Cache::default(), History::default());
        assert_eq!(earlier.next_at(1).unwrap().id, "old");
        for revocation in &earlier.history().revocations {
            log.record(revocation.clone());
        }
    }
    let list = vec![row("screencast", "a", "yes", Some(3)), row("camera", "b", "yes", None)];
    let mut revoker = Revoker::new(list, Cache::default(), log);
    assert_eq!(revoker.next_at(10).unwrap().id, "a");
    let second = revoker.next_at(11).unwrap();
    assert_eq!(second.id, "b");
    revoker.on_failed();
    assert_eq!(not_deleted(&second), "could not delete \"b\" from \"camera\"");
    let held: Vec<(String, String)> =
        revoker.history().revocations.iter().map(|r| (r.token.clone(), r.table.clone())).collect();
    assert_eq!(
        held,
        vec![
            ("old".to_string(), "camera".to_string()),
            ("a".to_string(), "screencast".to_string()),
        ]
    );
    revoker.on_failed();
    assert_eq!(revoker.history().revocations.len(), 2);
    assert_eq!(revoker.next_at(12).unwrap().id, "b");
    assert!(revoker.next_at(13).is_none());
    revoker.on_failed();
    assert_eq!(revoker.history().revocations.len(), 3);
}

#[test]
fn a_failure_at_the_first_row_changes_nothing() {
    let list = vec![row("screencast", "a", "yes", Some(3))];
    let mut revoker = Revoker::new(list, Cache::default(), History::default());
    revoker.on_failed();
    assert_eq!(revoker.next_at(10).unwrap().id, "a");
    revoker.on_failed();
    assert!(revoker.history().revocations.is_empty());
}
