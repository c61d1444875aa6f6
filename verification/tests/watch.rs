use wayward::attrib::{Cache, Identity};
use wayward::json::Json;
use wayward::report::Report;
use wayward::sessions::unique_name_from;
use wayward::store::{Basic, Variant};
use wayward::table::Table;
use wayward::watch::{
    report_call, report_grant, sender_from_request_path, sender_token, table_for, Event, MethodCall,
    Monitor, Options, Response, Signal, Step, Watcher,
};

/// Real paths from xdg-desktop-portal: connection `:1.72` gives `1_72`.
#[test]
fn el_fragmento_del_remitente_sale_del_nombre_unico() {
    assert_eq!(sender_token(":1.72"), "1_72");
    assert_eq!(sender_token(":1.1066"), "1_1066");
}

#[test]
fn la_ruta_de_request_devuelve_el_fragmento() {
    assert_eq!(
        sender_from_request_path("/org/freedesktop/portal/desktop/request/1_72/wayward1"),
        Some("1_72")
    );
}

/// What is noted with a call has to be what the response's path gives.
#[test]
fn la_correlacion_cierra_el_circulo() {
    let unique = ":1.72";
    let path = format!(
        "/org/freedesktop/portal/desktop/request/{}/handle",
        sender_token(unique)
    );
    assert_eq!(sender_from_request_path(&path), Some("1_72"));
}

#[test]
fn las_rutas_ajenas_no_correlacionan() {
    assert_eq!(
        sender_from_request_path("/org/freedesktop/portal/desktop"),
        None
    );
    assert_eq!(sender_from_request_path("/algo/completamente/otro"), None);
    // The path of a session is not that of a request, much as it looks like it.
    assert_eq!(
        sender_from_request_path("/org/freedesktop/portal/desktop/session/1_72/ses"),
        None
    );
}

#[test]
fn solo_se_vigilan_las_interfaces_del_catalogo() {
    assert_eq!(
        table_for("org.freedesktop.portal.ScreenCast"),
        Some("screencast")
    );
    assert_eq!(table_for("org.freedesktop.portal.Settings"), None);
}

#[test]
fn fragments_and_names_go_both_ways() {
    for fragment in ["1_5", "1_181", "", "_", "9"] {
        assert_eq!(sender_token(&unique_name_from(fragment)), fragment);
    }
    for name in [":1.5", ":1.99999", ":"] {
        assert_eq!(unique_name_from(&sender_token(name)), name);
    }
    // An underscore in a name is lost on the way.
    assert_eq!(unique_name_from(&sender_token(":1_a.2")), ":1.a.2");
}

#[test]
fn fragments_at_the_edges() {
    assert_eq!(sender_token("::1.2"), "1_2");
    assert_eq!(sender_token(""), "");
    assert_eq!(sender_from_request_path("/org/freedesktop/portal/desktop/request/"), None);
    assert_eq!(sender_from_request_path("/org/freedesktop/portal/desktop/request//h"), None);
    assert_eq!(
        sender_from_request_path("/org/freedesktop/portal/desktop/request/1_72"),
        Some("1_72")
    );
    assert_eq!(table_for("org.freedesktop.portal.Device"), Some("devices"));
}

fn obs() -> Identity {
    Identity {
        pid: Some(42),
        exe: Some("/usr/bin/obs".to_string()),
        cmdline: None,
        comm: Some("obs".to_string()),
    }
}

fn call<'a>(interface: &'a str, sender: &'a str, member: &'a str) -> MethodCall<'a> {
    MethodCall { interface: Some(interface), sender: Some(sender), member: Some(member) }
}

fn response(code: u32, token: Option<&str>) -> Response {
    let mut results = Table::new();
    if let Some(token) = token {
        let value = Variant::Value(Box::new(Variant::Basic(Basic::Str(token.to_string()))));
        results.insert("restore_token".to_string(), value);
    }
    Response { code, results }
}

fn signal<'a>(path: &'a str, body: &'a Response) -> Signal<'a> {
    Signal {
        interface: Some("org.freedesktop.portal.Request"),
        member: Some("Response"),
        path: Some(path),
        body: Some(body),
    }
}

const PATH: &str = "/org/freedesktop/portal/desktop/request/1_72/wayward1";

#[test]
fn a_grant_is_attributed_to_whoever_called() {
    let mut monitor = Monitor::new();
    let granted = response(0, Some("4fuE"));
    assert!(monitor.on_signal(&signal(PATH, &granted)).is_none(), "nobody has called yet");

    let step = monitor.on_call(&call("org.freedesktop.portal.ScreenCast", ":1.72", "Start"));
    let pending = match step {
        Step::Resolve(pending) => pending,
        _ => panic!("the process has to be looked up"),
    };
    match monitor.on_resolved(pending, Some(obs())) {
        Event::Call { identity, interface, member } => {
            assert_eq!(identity.label(), "obs");
            assert_eq!(interface, "org.freedesktop.portal.ScreenCast");
            assert_eq!(member, "Start");
        }
        other => panic!("{other:?}"),
    }
    match monitor.on_signal(&signal(PATH, &granted)) {
        Some(Event::Grant { identity, token, table }) => {
            assert_eq!(identity.label(), "obs");
            assert_eq!(token, "4fuE");
            assert_eq!(table, "screencast");
        }
        other => panic!("{other:?}"),
    }

    // A refusal, a response without a token, and one of another connection.
    assert!(monitor.on_signal(&signal(PATH, &response(1, Some("4fuE")))).is_none());
    assert!(monitor.on_signal(&signal(PATH, &response(0, None))).is_none());
    let other = "/org/freedesktop/portal/desktop/request/1_73/h";
    assert!(monitor.on_signal(&signal(other, &granted)).is_none());
    let foreign = Signal { member: Some("Closed"), ..signal(PATH, &granted) };
    assert!(monitor.on_signal(&foreign).is_none());
    let unread = Signal { body: None, ..signal(PATH, &granted) };
    assert!(monitor.on_signal(&unread).is_none());

    // The next call needs no lookup, and moves the connection to another table.
    match monitor.on_call(&call("org.freedesktop.portal.Camera", ":1.72", "AccessCamera")) {
        Step::Emit(Event::Call { identity, .. }) => assert_eq!(identity.pid, Some(42)),
        _ => panic!("the process is known"),
    }
    match monitor.on_signal(&signal(PATH, &granted)) {
        Some(Event::Grant { table, .. }) => assert_eq!(table, "camera"),
        other => panic!("{other:?}"),
    }
}

#[test]
fn a_process_that_is_gone_is_asked_for_once() {
    let mut monitor = Monitor::new();
    let gone = call("org.freedesktop.portal.Location", ":1.9", "CreateSession");
    match monitor.on_call(&gone) {
        Step::Resolve(pending) => {
            monitor.on_resolved(pending, None);
        }
        _ => panic!("the process has to be looked up"),
    }
    match monitor.on_call(&gone) {
        Step::Emit(Event::Call { identity, .. }) => assert_eq!(identity.label(), "unknown"),
        _ => panic!("nobody is on record"),
    }
    let quiet = MethodCall { sender: None, ..gone };
    assert!(matches!(monitor.on_call(&quiet), Step::Skip));
    let other = call("org.freedesktop.portal.Settings", ":1.9", "Read");
    assert!(matches!(monitor.on_call(&other), Step::Skip));
}

fn plain(j: &Json) -> serde_json::Value {
    match j {
        Json::Null => serde_json::Value::Null,
        Json::Bool(b) => serde_json::Value::from(*b),
        Json::Unsigned(n) => serde_json::Value::from(*n),
        Json::Negative(n) => serde_json::Value::from(*n),
        Json::Float(bits) => serde_json::Value::from(f64::from_bits(*bits)),
        Json::Str(s) => serde_json::Value::from(s.as_str()),
        Json::Array(items) => items.iter().map(plain).collect(),
        Json::Object(fields) => fields.iter().map(|(k, v)| (k.clone(), plain(v))).collect(),
    }
}

fn document(report: Report) -> serde_json::Value {
    match report {
        Report::Document(value) => {
            let written = plain(&value);
            assert_eq!(value.compact(), Some(written.to_string()));
            written
        }
        Report::Lines(lines) => panic!("{lines:?}"),
    }
}

fn lines(report: Report) -> Vec<String> {
    match report {
        Report::Lines(lines) => lines,
        Report::Document(_) => panic!("a document"),
    }
}

#[test]
fn calls_and_grants_are_reported() {
    let interface = "org.freedesktop.portal.ScreenCast";
    assert_eq!(
        lines(report_call(false, &obs(), interface, "Start", 5, "10:20:30")),
        vec![
            "  \u{1b}[2m10:20:30\u{1b}[0m  \u{1b}[1mobs                   \u{1b}[0m \u{1b}[36mScreenCast\u{1b}[39m.Start"
        ]
    );
    assert_eq!(
        lines(report_grant(false, &obs(), "tok", "screencast", 5, "10:20:30")),
        vec![
            "  \u{1b}[2m10:20:30\u{1b}[0m  \u{1b}[33m⚑\u{1b}[39m \u{1b}[1mobs\u{1b}[0m was granted persistent \u{1b}[33mscreencast\u{1b}[39m access → token \u{1b}[2mtok\u{1b}[0m"
        ]
    );
    let expected: serde_json::Value = serde_json::from_str(
        r#"{"event":"call","time":5,"app":"obs","pid":42,"exe":"/usr/bin/obs",
            "interface":"ScreenCast","member":"Start"}"#,
    )
    .unwrap();
    assert_eq!(document(report_call(true, &obs(), interface, "Start", 5, "")), expected);
    let expected: serde_json::Value = serde_json::from_str(
        r#"{"event":"grant","time":-5,"app":"unknown","pid":null,"exe":null,
            "table":"camera","restore_token":"tok"}"#,
    )
    .unwrap();
    let unknown = Identity::default();
    assert_eq!(document(report_grant(true, &unknown, "tok", "camera", -5, "")), expected);
}

fn granted() -> Event {
    Event::Grant { identity: obs(), token: "tok".to_string(), table: "screencast" }
}

fn called() -> Event {
    Event::Call { identity: obs(), interface: "a.B".to_string(), member: "C".to_string() }
}

#[test]
fn a_service_logs_grants_only_and_saves_them_at_once() {
    let options = Options { json: false, daemon: true, notify: true };
    let mut watcher = Watcher::new(Cache::default());
    let reaction = watcher.on_event(options, &called(), 1, "");
    assert!(reaction.report.is_none() && !reaction.save && !watcher.dirty);

    let reaction = watcher.react(options, &granted());
    assert!(reaction.report.is_some() && reaction.save && watcher.dirty);
    assert_eq!(reaction.notification.unwrap().summary, "obs gained persistent access");
    assert_eq!(watcher.cache.get("tok").unwrap().identity.label(), "obs");
    assert!(Watcher::opening(options).is_none());
    assert!(watcher.closing(options, "/p").is_none());
}

#[test]
fn watching_by_hand_prints_everything() {
    let options = Options { json: false, daemon: false, notify: false };
    let mut watcher = Watcher::new(Cache::default());
    assert_eq!(
        Watcher::opening(options).unwrap(),
        "\u{1b}[1mwayward\u{1b}[0m listening to the portal. Ctrl-C to stop and save.\n"
    );
    assert!(watcher.on_event(options, &Event::Ready, 1, "").report.is_none());
    assert!(watcher.on_event(options, &called(), 1, "").report.is_some());
    let reaction = watcher.on_event(options, &granted(), 9, "");
    assert!(reaction.notification.is_none() && !reaction.save);
    assert_eq!(watcher.cache.get("tok").unwrap().first_seen, 9);
    assert_eq!(
        watcher.closing(options, "/p").unwrap(),
        "\n\u{1b}[32m✓\u{1b}[39m 1 attributions saved to /p"
    );
    let failed = watcher.on_event(options, &Event::Error("bus".to_string()), 1, "");
    assert_eq!(failed.failure.as_deref(), Some("bus"));
}
