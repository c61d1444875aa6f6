use wayward::attrib::{Cache, Identity};
use wayward::history::{history_path, History, Revocation};
use wayward::json::Json;
use wayward::store::Entry;
use wayward::table::Table;

fn entry(id: &str) -> Entry {
    let mut permissions = Table::new();
    permissions.insert(String::new(), vec!["yes".to_string()]);
    Entry {
        table: "screencast".to_string(),
        id: id.to_string(),
        permissions,
        data: Json::Null,
        details: vec![("output".to_string(), "DP-1".to_string())],
        issued_at: Some(1_786_207_593),
    }
}

/// What was known at the time of the deletion has to stay as it was: later
/// there is no way of finding it out.
#[test]
fn la_foto_conserva_la_atribucion_y_los_detalles() {
    let mut cache = Cache::default();
    cache.observe(
        "tok",
        Identity {
            pid: Some(1),
            exe: Some("/usr/bin/obs".to_string()),
            cmdline: None,
            comm: Some("obs".to_string()),
        },
        "screencast",
        0,
    );

    let revocation = Revocation::of(&entry("tok"), &cache, 1_786_300_000);
    assert_eq!(revocation.app.as_deref(), Some("obs"));
    assert_eq!(revocation.exe.as_deref(), Some("/usr/bin/obs"));
    assert_eq!(revocation.issued_at, Some(1_786_207_593));
    assert_eq!(revocation.details.len(), 1);
}

#[test]
fn sin_atribucion_la_foto_sigue_siendo_util() {
    let revocation = Revocation::of(&entry("tok"), &Cache::default(), 10);
    assert!(revocation.app.is_none(), "no había a quién atribuirlo");
    assert_eq!(revocation.token, "tok");
    assert_eq!(revocation.revoked_at, 10);
}

#[test]
fn el_historico_se_lee_del_mas_reciente_al_mas_viejo() {
    let mut history = History::default();
    for (token, at) in [("viejo", 100), ("nuevo", 300), ("medio", 200)] {
        let mut revocation = Revocation::of(&entry(token), &Cache::default(), at);
        revocation.token = token.to_string();
        history.record(revocation);
    }
    let orden: Vec<&str> = history
        .newest_first()
        .iter()
        .map(|r| r.token.as_str())
        .collect();
    assert_eq!(orden, vec!["nuevo", "medio", "viejo"]);
}

#[test]
fn revocations_of_the_same_moment_keep_their_order() {
    let mut history = History::default();
    for token in ["a", "b", "c"] {
        history.record(Revocation::of(&entry(token), &Cache::default(), 7));
    }
    let order: Vec<&str> = history.newest_first().iter().map(|r| r.token.as_str()).collect();
    assert_eq!(order, vec!["a", "b", "c"]);
    assert_eq!(history.revocations.len(), 3);
}

#[test]
fn an_identified_application_is_the_owner_where_nothing_is_attributed() {
    let mut permissions = Table::new();
    permissions.insert("org.example.Zed".to_string(), vec!["yes".to_string()]);
    permissions.insert("org.example.Alpha".to_string(), vec!["yes".to_string()]);
    let row = Entry { permissions, ..entry("tok") };
    let revocation = Revocation::of(&row, &Cache::default(), 1);
    assert_eq!(revocation.app.as_deref(), Some("org.example.Alpha"));
    assert_eq!(revocation.exe, None);
}

#[test]
fn the_log_stands_below_the_state_directory() {
    assert_eq!(
        history_path(Some(b"/state".to_vec()), Some(b"/home/ana".to_vec())),
        b"/state/wayward/revocations.json".to_vec()
    );
    assert_eq!(
        history_path(None, Some(b"/home/ana".to_vec())),
        b"/home/ana/.local/state/wayward/revocations.json".to_vec()
    );
    assert_eq!(
        history_path(Some(Vec::new()), None),
        b"/.local/state/wayward/revocations.json".to_vec()
    );
}
