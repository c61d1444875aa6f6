use wayward::attrib::{Cache, Identity};
use wayward::history::{History, Revocation};
use wayward::json::Json;
use wayward::store::Entry;
use wayward::table::Table;
use wayward::tui::{Action, Activity, App, Key, Tab, ACTIVITY_LIMIT};
use wayward::ui::{detail_lines, dialog, draw, draw_at, Body, Color, Line, Screen, Style};
use wayward::watch::Event;

fn entry(id: &str) -> Entry {
    // The empty application identifier is what a native application leaves.
    let mut permissions = Table::new();
    permissions.insert(String::new(), vec!["yes".to_string()]);
    Entry {
        table: "screencast".to_string(),
        id: id.to_string(),
        permissions,
        data: Json::Array(Vec::new()),
        details: vec![("salida".to_string(), "DP-1".to_string())],
        issued_at: Some(1_786_207_593),
    }
}

fn text(line: &Line) -> String {
    line.spans.iter().map(|span| span.text.as_str()).collect()
}

fn texts(lines: &[Line]) -> Vec<String> {
    lines.iter().map(text).collect()
}

fn flatten(screen: &Screen) -> String {
    let mut out = vec![text(&screen.title), screen.monitor.text.clone()];
    match &screen.body {
        Body::Permissions { items, details, .. } => {
            out.extend(texts(items));
            out.extend(texts(details));
        }
        Body::Activity(lines) => out.extend(texts(lines)),
        Body::Revoked(lines) => out.extend(texts(lines)),
    }
    out.push(text(&screen.footer));
    if let Some(lines) = &screen.dialog {
        out.extend(texts(lines));
    }
    out.join("\n")
}

fn render(app: &App) -> String {
    flatten(&draw(app, 22))
}

#[test]
fn un_permiso_sin_atribuir_se_ve_como_tal() {
    let app = App::new(vec![entry("4fuEEh6prRn88cBf79d3jw")], Cache::default(), History::default());
    let screen = render(&app);
    assert!(screen.contains("ScreenCast"), "falta la tabla:\n{screen}");
    assert!(screen.contains("unattributed"), "falta el aviso:\n{screen}");
}

/// The head may not say that anybody is listening until the bus has confirmed
/// it: that is the one lie that such a tool cannot afford.
#[test]
fn no_se_anuncia_la_vigilancia_antes_de_confirmarla() {
    let mut app = App::new(vec![entry("tok")], Cache::default(), History::default());
    let antes = render(&app);
    assert!(antes.contains("connecting"), "debería estar conectando:\n{antes}");
    assert!(!antes.contains("listening"), "no puede afirmarlo aún:\n{antes}");

    app.on_monitor(Event::Ready);
    let despues = render(&app);
    assert!(despues.contains("listening"), "ya confirmado:\n{despues}");
}

#[test]
fn la_atribucion_sustituye_al_aviso() {
    let mut cache = Cache::default();
    cache.observe(
        "4fuEEh6prRn88cBf79d3jw",
        Identity {
            pid: Some(1234),
            exe: Some("/usr/bin/obs".to_string()),
            cmdline: Some("obs".to_string()),
            comm: Some("obs".to_string()),
        },
        "screencast",
        0,
    );

    let app = App::new(vec![entry("4fuEEh6prRn88cBf79d3jw")], cache, History::default());
    let screen = render(&app);
    assert!(screen.contains("obs"), "falta el nombre atribuido:\n{screen}");
    assert!(!screen.contains("unattributed"), "no debería avisar ya:\n{screen}");
}

#[test]
fn el_monitor_caido_se_anuncia() {
    let mut app = App::new(vec![entry("tok")], Cache::default(), History::default());
    app.monitor_error = Some("el bus rechazó activar el modo monitor".to_string());
    let screen = render(&app);
    assert!(screen.contains("monitor down"), "falta el aviso:\n{screen}");
}

#[test]
fn la_vista_de_actividad_se_pinta_sin_datos() {
    let mut app = App::new(Vec::new(), Cache::default(), History::default());
    app.tab = Tab::Actividad;
    let screen = render(&app);
    assert!(screen.contains("Listening"), "falta la pista:\n{screen}");
}

#[test]
fn una_concesion_marca_el_token_como_reciente() {
    let mut app = App::new(vec![entry("tok")], Cache::default(), History::default());
    let reload = app.on_monitor(Event::Grant {
        identity: Identity::default(),
        token: "tok".to_string(),
        table: "screencast",
    });
    assert!(reload, "una concesión debe forzar la relectura del store");
    assert!(app.fresh.get("tok").is_some());
    assert_eq!(app.activity.len(), 1);
}

/// "3 revoked" reads like a number of revocations where the 3 is the key. The
/// key stands in square brackets, and the number in round ones.
#[test]
fn la_cabecera_separa_la_tecla_de_la_cantidad() {
    let vacia = App::new(Vec::new(), Cache::default(), History::default());
    let screen = render(&vacia);
    assert!(screen.contains("[3] revoked (0)"), "cabecera ambigua:\n{screen}");
    assert!(screen.contains("[1] permissions (0)"), "cabecera ambigua:\n{screen}");

    let mut history = History::default();
    history.record(Revocation::of(&entry("tok"), &Cache::default(), 1));
    history.record(Revocation::of(&entry("otro"), &Cache::default(), 2));
    let con_datos = App::new(vec![entry("a")], Cache::default(), history);
    let screen = render(&con_datos);
    assert!(screen.contains("[3] revoked (2)"), "falta la cuenta:\n{screen}");
    assert!(screen.contains("[1] permissions (1)"), "falta la cuenta:\n{screen}");
}

#[test]
fn la_pestana_de_revocados_explica_para_que_sirve() {
    let mut app = App::new(Vec::new(), Cache::default(), History::default());
    app.tab = Tab::Revocados;
    let screen = render(&app);
    assert!(screen.contains("Nothing revoked yet"), "falta la pista:\n{screen}");
}

/// What the view is for: the permission is gone, and so is its attribution, and
/// still it can be said whom it belonged to.
#[test]
fn lo_revocado_sobrevive_al_permiso_y_a_la_cache() {
    let mut cache = Cache::default();
    cache.observe(
        "4fuEEh6prRn88cBf79d3jw",
        Identity {
            pid: Some(1),
            exe: Some("/usr/bin/obs".to_string()),
            cmdline: None,
            comm: Some("obs".to_string()),
        },
        "screencast",
        0,
    );
    let mut history = History::default();
    history.record(Revocation::of(
        &entry("4fuEEh6prRn88cBf79d3jw"),
        &cache,
        1_786_300_000,
    ));

    let mut app = App::new(Vec::new(), Cache::default(), history);
    app.tab = Tab::Revocados;
    let screen = render(&app);

    assert!(screen.contains("obs"), "falta el dueño:\n{screen}");
    assert!(screen.contains("screencast"), "falta la tabla:\n{screen}");
    assert!(screen.contains("/usr/bin/obs"), "falta el ejecutable:\n{screen}");
}

#[test]
fn el_cursor_no_se_sale_de_la_lista() {
    let mut app = App::new(vec![entry("a"), entry("b")], Cache::default(), History::default());
    app.move_by(-1);
    assert_eq!(app.selected, 0, "no debe pasar del principio");
    app.move_by(50);
    assert_eq!(app.selected, 1, "no debe pasar del final");
}

#[test]
fn el_registro_de_actividad_no_crece_sin_limite() {
    let mut app = App::new(Vec::new(), Cache::default(), History::default());
    for i in 0..ACTIVITY_LIMIT + 25 {
        app.push_activity(Activity {
            time: "00:00:00".to_string(),
            app: format!("app{i}"),
            detail: "ScreenCast.Start".to_string(),
            grant: false,
        });
    }
    assert_eq!(app.activity.len(), ACTIVITY_LIMIT);
    // The old ones go, not the new ones.
    assert_eq!(app.activity.back().unwrap().app, format!("app{}", ACTIVITY_LIMIT + 24));
}

#[test]
fn the_cursor_moves_by_any_distance() {
    let rows = vec![entry("a"), entry("b"), entry("c")];
    let mut app = App::new(rows, Cache::default(), History::default());
    app.move_by(isize::MAX);
    assert_eq!(app.selected, 2);
    app.move_by(-1);
    assert_eq!(app.selected, 1);
    app.move_by(isize::MIN);
    assert_eq!(app.selected, 0);
    app.move_by(0);
    assert_eq!(app.current().unwrap().id, "a");
    let mut empty = App::new(Vec::new(), Cache::default(), History::default());
    empty.move_by(1);
    assert_eq!(empty.selected, 0);
    assert!(empty.current().is_none());
}

fn press(app: &mut App, key: Key) -> Action {
    app.handle_key(key, false)
}

#[test]
fn keys_move_and_switch_views() {
    let rows = vec![entry("a"), entry("b"), entry("c")];
    let mut app = App::new(rows, Cache::default(), History::default());
    press(&mut app, Key::Char('j'));
    press(&mut app, Key::Down);
    assert_eq!(app.selected, 2);
    press(&mut app, Key::Char('k'));
    assert_eq!(app.selected, 1);
    press(&mut app, Key::Up);
    press(&mut app, Key::End);
    assert_eq!(app.selected, 2);
    press(&mut app, Key::Home);
    assert_eq!(app.selected, 0);
    press(&mut app, Key::Tab);
    assert_eq!(app.tab, Tab::Actividad);
    press(&mut app, Key::Tab);
    assert_eq!(app.tab, Tab::Revocados);
    press(&mut app, Key::Tab);
    assert_eq!(app.tab, Tab::Permisos);
    press(&mut app, Key::Char('3'));
    assert_eq!(app.tab, Tab::Revocados);
    press(&mut app, Key::Char('2'));
    assert_eq!(app.tab, Tab::Actividad);
    press(&mut app, Key::Char('1'));
    assert_eq!(app.tab, Tab::Permisos);
    assert!(matches!(press(&mut app, Key::Char('R')), Action::Reload));
    assert!(matches!(press(&mut app, Key::Other), Action::Nothing));
    assert!(!app.quit);
    press(&mut app, Key::Char('q'));
    assert!(app.quit);
}

#[test]
fn revoking_asks_first() {
    let mut app = App::new(vec![entry("tok")], Cache::default(), History::default());
    assert!(matches!(press(&mut app, Key::Char('y')), Action::Nothing));
    press(&mut app, Key::Char('r'));
    let waiting = app.confirm.as_ref().unwrap();
    assert_eq!((waiting.token.as_str(), waiting.table.as_str()), ("tok", "screencast"));
    assert_eq!(
        texts(&dialog(waiting)),
        vec![
            "",
            "  Revoke the screencast permission",
            "  tok",
            "",
            "  The application will ask for it again next time it",
            "  needs it.",
            "",
            "  y confirm · any other key cancels",
        ]
    );
    assert!(render(&app).contains("Revoke the screencast permission"));
    // Keys that would do something else cancel.
    assert!(matches!(press(&mut app, Key::Char('q')), Action::Nothing));
    assert!(!app.quit && app.confirm.is_none());
    assert_eq!(app.status.as_deref(), Some("revocation cancelled"));
    // Control-C ends it, dialog or not.
    press(&mut app, Key::Char('r'));
    assert!(matches!(app.handle_key(Key::Char('c'), true), Action::Nothing));
    assert!(app.quit && app.confirm.is_some());
}

#[test]
fn a_confirmed_revocation_goes_into_the_log() {
    let mut app = App::new(vec![entry("tok")], Cache::default(), History::default());
    press(&mut app, Key::Char('r'));
    let revoking = match app.handle_key_at(Key::Char('Y'), false, 77) {
        Action::Delete(revoking) => revoking,
        _ => panic!("the row has to be deleted"),
    };
    assert_eq!((revoking.token.as_str(), revoking.table.as_str()), ("tok", "screencast"));
    assert_eq!(app.history.revocations.len(), 0);
    assert!(app.on_deleted(revoking));
    assert_eq!(app.history.revocations[0].revoked_at, 77);
    app.on_logged("tok", None);
    assert_eq!(app.status.as_deref(), Some("revoked tok"));
    app.on_logged("tok", Some("disk full"));
    assert_eq!(app.status.as_deref(), Some("revoked tok, but the log failed: disk full"));
    app.on_delete_failed("no bus");
    assert_eq!(app.status.as_deref(), Some("could not revoke: no bus"));
    app.on_save_failed("disk full");
    assert_eq!(app.status.as_deref(), Some("could not save the attribution: disk full"));

    // The row may have gone from the list in the meantime.
    press(&mut app, Key::Char('r'));
    app.on_reloaded(Ok(Vec::new()), false);
    match press(&mut app, Key::Char('y')) {
        Action::Delete(revoking) => {
            assert!(revoking.snapshot.is_none());
            assert!(!app.on_deleted(revoking));
        }
        _ => panic!("the row has to be deleted"),
    }
}

#[test]
fn reading_anew_keeps_the_cursor_inside() {
    let rows = vec![entry("a"), entry("b"), entry("c")];
    let mut app = App::new(rows, Cache::default(), History::default());
    app.selected = 2;
    app.on_reloaded(Ok(vec![entry("a"), entry("b")]), false);
    assert_eq!((app.selected, app.entries.len()), (1, 2));
    app.on_reloaded(Err("no bus".to_string()), false);
    assert_eq!(app.status.as_deref(), Some("could not re-read the store: no bus"));
    assert_eq!(app.entries.len(), 2);
    app.on_reloaded(Ok(Vec::new()), true);
    assert_eq!(app.selected, 0);
    assert_eq!(app.status.as_deref(), Some("list reloaded"));
}

#[test]
fn the_list_shows_what_is_granted_and_to_whom() {
    let mut denied = entry("camera");
    denied.table = "devices".to_string();
    denied.permissions = Table::new();
    denied.permissions.insert(String::new(), vec!["no".to_string()]);
    let mut odd = entry("odd");
    odd.permissions = Table::new();
    odd.permissions.insert(String::new(), vec!["ask".to_string()]);
    let mut known = entry("known");
    known.permissions.insert("org.b".to_string(), vec!["yes".to_string()]);
    known.permissions.insert("org.a".to_string(), vec!["yes".to_string()]);
    let rows = vec![entry("4fuEEh6prRn88cBf79d3jw"), denied, odd, known];
    let mut app = App::new(rows, Cache::default(), History::default());
    app.fresh.insert("odd".to_string(), ());
    let screen = draw_at(&app, "2026-08-08 18:46 (1 day ago)", &Vec::new(), 20);
    let (items, selected, details) = match screen.body {
        Body::Permissions { items, selected, details } => (items, selected, details),
        _ => panic!("the list"),
    };
    assert_eq!(
        texts(&items),
        vec![
            "● ScreenCast 4fuEEh6prRn8…    unattributed",
            "● Devices    camera           denied",
            "● ScreenCast odd            ✦ non-standard value",
            "● ScreenCast known            org.a, org.b",
        ]
    );
    assert_eq!(items[0].spans[0].style, Style::colored(Color::Red));
    assert_eq!(items[1].spans[0].style, Style::faint());
    assert_eq!(selected, Some(0));
    assert_eq!(
        texts(&details)[..8],
        [
            "4fuEEh6prRn88cBf79d3jw",
            "",
            "ScreenCast HIGH risk",
            "continuous screen capture, resumable without asking again",
            "",
            "granted     2026-08-08 18:46 (1 day ago)",
            "salida      DP-1",
            "",
        ]
    );
    assert_eq!(text(&details[8]), "Unattributed");

    app.selected = 1;
    assert_eq!(text(&detail_lines(&app)[8]), "Denied");
    app.selected = 3;
    assert_eq!(texts(&detail_lines(&app))[8..], ["Applications", "org.a, org.b"]);
    app.selected = 9;
    assert_eq!(texts(&detail_lines(&app)), vec![""]);

    let empty = App::new(Vec::new(), Cache::default(), History::default());
    match draw(&empty, 20).body {
        Body::Permissions { items, selected, .. } => {
            assert_eq!(texts(&items), vec!["", "  No desktop-portal permission is granted."]);
            assert_eq!(selected, None);
        }
        _ => panic!("the list"),
    }
}

#[test]
fn a_grant_shows_in_the_list_at_once() {
    let mut app = App::new(vec![entry("tok")], Cache::default(), History::default());
    let first = |app: &App| match draw(app, 20).body {
        Body::Permissions { items, .. } => text(&items[0]),
        _ => panic!("the list"),
    };
    assert_eq!(first(&app), "● ScreenCast tok              unattributed");
    app.on_monitor(Event::Grant {
        identity: Identity { comm: Some("obs".to_string()), ..Identity::default() },
        token: "tok".to_string(),
        table: "screencast",
    });
    assert_eq!(first(&app), "● ScreenCast tok            ✦ obs");
}

#[test]
fn the_details_say_whom_a_token_belongs_to() {
    let mut cache = Cache::default();
    let identity = Identity {
        pid: None,
        exe: Some("/usr/bin/obs".to_string()),
        cmdline: Some("obs --startrecording".to_string()),
        comm: None,
    };
    cache.observe("tok", identity, "screencast", 0);
    let app = App::new(vec![entry("tok")], cache, History::default());
    assert_eq!(
        texts(&detail_lines(&app))[8..],
        ["Attributed to", "obs", "/usr/bin/obs", "", "obs --startrecording"]
    );
}

#[test]
fn the_last_activities_are_shown() {
    let mut app = App::new(Vec::new(), Cache::default(), History::default());
    app.tab = Tab::Actividad;
    for i in 0..3 {
        app.on_monitor_at(
            Event::Call {
                identity: Identity { comm: Some(format!("app{i}")), ..Identity::default() },
                interface: "org.freedesktop.portal.Camera".to_string(),
                member: "AccessCamera".to_string(),
            },
            "10:20:30",
            0,
        );
    }
    app.on_monitor_at(
        Event::Grant {
            identity: Identity { comm: Some("a name of over twenty".to_string()), ..Identity::default() },
            token: "tok".to_string(),
            table: "camera",
        },
        "10:20:31",
        0,
    );
    let lines = match draw(&app, 4).body {
        Body::Activity(lines) => lines,
        _ => panic!("the activity"),
    };
    assert_eq!(
        texts(&lines),
        vec![
            "10:20:30   app2                Camera.AccessCamera",
            "10:20:31 ⚑ a name of over twe… was granted persistent camera access",
        ]
    );
    match draw(&app, 1).body {
        Body::Activity(lines) => assert!(lines.is_empty()),
        _ => panic!("the activity"),
    }
    app.on_monitor(Event::Error("refused".to_string()));
    match draw(&app, 30).body {
        Body::Activity(lines) => {
            assert_eq!(texts(&lines), vec!["The bus monitor failed to start", "", "refused"]);
        }
        _ => panic!("the activity"),
    }
}

#[test]
fn revocations_are_shown_with_all_that_is_known() {
    let mut history = History::default();
    let mut old = Revocation::of(&entry("old"), &Cache::default(), 1);
    old.details.push(("cursor".to_string(), "hidden".to_string()));
    history.record(old);
    // No calendar reaches this far, so the bare number is shown.
    let mut new = Revocation::of(&entry("new"), &Cache::default(), i64::MAX);
    new.app = Some("obs".to_string());
    new.exe = Some("/usr/bin/obs".to_string());
    new.details.clear();
    history.record(new);
    let mut app = App::new(Vec::new(), Cache::default(), history);
    app.tab = Tab::Revocados;
    let stamps = vec!["9223372036854775807".to_string(), "01 Jan 00:00".to_string()];
    let shown = |screen: Screen| match screen.body {
        Body::Revoked(lines) => texts(&lines),
        _ => panic!("the revocations"),
    };
    let whole = shown(draw_at(&app, "", &stamps, 40));
    assert_eq!(
        whole,
        vec![
            "9223372036854775807  obs  screencast",
            "               new",
            "               /usr/bin/obs",
            "",
            "01 Jan 00:00  unattributed  screencast",
            "               old",
            "               salida DP-1 · cursor hidden",
            "",
        ]
    );
    assert_eq!(shown(draw_at(&app, "", &stamps, 5)), whole[..3]);
    assert_eq!(shown(draw(&app, 40))[0], whole[0]);
}

#[test]
fn the_foot_shows_the_keys_or_what_has_happened() {
    let mut app = App::new(Vec::new(), Cache::default(), History::default());
    assert_eq!(
        text(&draw(&app, 9).footer),
        " j/k move · r revoke · R reload · tab switch view · q quit"
    );
    app.status = Some("list reloaded".to_string());
    let footer = draw(&app, 9).footer;
    assert_eq!(text(&footer), " list reloaded");
    assert_eq!(footer.spans[0].style, Style::colored(Color::Cyan));
    let title = draw(&app, 9).title;
    assert_eq!(text(&title), " wayward  [1] permissions (0)   [2] activity   [3] revoked (0) ");
    assert_eq!(title.spans[1].style.bg, Some(Color::Cyan));
    assert_eq!(title.spans[3].style, Style::faint());
}
