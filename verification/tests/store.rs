use wayward::json::Json;
use wayward::store::{
    cursor_mode, db_dir, discover_tables, interpret, read_entry, tables_to_read, value_to_json, Basic,
    Decision, Double, Entry, Found, Variant,
};
use wayward::table::Table;

fn entry(permissions: &[(&str, &[&str])]) -> Entry {
    let mut table = Table::new();
    for (app, values) in permissions {
        table.insert(app.to_string(), values.iter().map(|v| v.to_string()).collect());
    }
    Entry {
        table: "screencast".to_string(),
        id: "tok".to_string(),
        permissions: table,
        data: Json::Null,
        details: Vec::new(),
        issued_at: None,
    }
}

#[test]
fn un_yes_es_una_concesion() {
    assert_eq!(entry(&[("", &["yes"])]).decision(), Decision::Granted);
}

#[test]
fn un_no_es_un_rechazo() {
    assert_eq!(entry(&[("", &["no"])]).decision(), Decision::Denied);
}

#[test]
fn basta_un_yes_de_cualquier_app_para_que_este_concedido() {
    let e = entry(&[("org.ejemplo.Uno", &["no"]), ("org.ejemplo.Dos", &["yes"])]);
    assert_eq!(e.decision(), Decision::Granted);
}

#[test]
fn lo_que_no_se_reconoce_no_se_supone() {
    assert_eq!(entry(&[("", &["ask"])]).decision(), Decision::Unknown);
    assert_eq!(entry(&[]).decision(), Decision::Unknown);
}

#[test]
fn el_app_id_vacio_marca_lo_no_atribuible() {
    assert!(entry(&[("", &["yes"])]).unattributed());
    let con_app = entry(&[("com.obsproject.Studio", &["yes"])]);
    assert!(!con_app.unattributed());
    assert_eq!(con_app.apps(), vec!["com.obsproject.Studio"]);
}

#[test]
fn decisions_do_not_depend_on_the_case_of_letters() {
    assert_eq!(entry(&[("", &["YES"])]).decision(), Decision::Granted);
    assert_eq!(entry(&[("", &["No", "nO"])]).decision(), Decision::Denied);
    assert_eq!(entry(&[("", &["no", "ask"])]).decision(), Decision::Unknown);
    assert_eq!(entry(&[("", &[])]).decision(), Decision::Unknown);
    assert_eq!(Decision::Granted.json_name(), "granted");
    assert_eq!(Decision::Denied.json_name(), "denied");
    assert_eq!(Decision::Unknown.json_name(), "unknown");
}

#[test]
fn applications_are_listed_in_alphabetical_order() {
    let e = entry(&[("org.z", &["yes"]), ("", &["yes"]), ("org.a", &["no"]), ("Org.m", &[])]);
    assert_eq!(e.apps(), vec!["Org.m", "org.a", "org.z"]);
    assert!(!e.unattributed());
    assert!(entry(&[]).unattributed());
    assert_eq!(e.clone().apps(), e.apps());
}

fn found(name: &str, is_file: bool) -> Found {
    Found { name: name.to_string(), is_file }
}

#[test]
fn tables_are_the_visible_files() {
    let listing = vec![
        found("screencast", true),
        found(".goutputstream-X", true),
        found("lost+found", false),
        found("devices", true),
    ];
    assert_eq!(discover_tables(&listing), vec!["devices", "screencast"]);
    assert_eq!(tables_to_read(None, &listing), vec!["devices", "screencast"]);
    assert_eq!(tables_to_read(Some("camera"), &listing), vec!["camera"]);
}

#[test]
fn the_store_stands_below_the_data_directory() {
    assert_eq!(db_dir(Some(b"/data/".to_vec()), None), b"/data/flatpak/db".to_vec());
    assert_eq!(
        db_dir(None, Some(b"/home/ana".to_vec())),
        b"/home/ana/.local/share/flatpak/db".to_vec()
    );
}

fn plain(j: &Json) -> serde_json::Value {
    match j {
        Json::Null => serde_json::Value::Null,
        Json::Bool(b) => serde_json::Value::from(*b),
        Json::Unsigned(n) => serde_json::Value::from(*n),
        Json::Negative(n) => serde_json::Value::from(*n),
        Json::Float(bits) => serde_json::Value::from(f64::from_bits(*bits)),
        Json::Str(s) => serde_json::Value::from(s.as_str()),
        Json::Array(items) => items.iter().map(plain).collect(),
        Json::Object(fields) => fields.iter().map(|(k, v)| (k.clone(), plain(v))).collect(),
    }
}

fn text(s: &str) -> Variant {
    Variant::Basic(Basic::Str(s.to_string()))
}

fn double(x: f64) -> Basic {
    Basic::F64(Double { bits: x.to_bits(), decimal: format!("{x:?}") })
}

#[test]
fn values_from_the_bus_become_json() {
    let value = Variant::Structure(vec![
        Variant::Basic(Basic::U8(7)),
        Variant::Basic(Basic::Bool(true)),
        Variant::Basic(Basic::I16(-2)),
        Variant::Basic(Basic::U16(65535)),
        Variant::Basic(Basic::I32(3)),
        Variant::Basic(Basic::U32(4_000_000_000)),
        Variant::Basic(Basic::I64(i64::MIN)),
        Variant::Basic(Basic::U64(u64::MAX)),
        Variant::Basic(double(1.5)),
        Variant::Basic(double(f64::NAN)),
        Variant::Basic(double(f64::NEG_INFINITY)),
        Variant::Basic(Basic::Signature("a{sv}".to_string())),
        Variant::Basic(Basic::ObjectPath("/a".to_string())),
        Variant::Value(Box::new(Variant::Array(vec![text("x")]))),
        Variant::Other("Fd(3)".to_string()),
    ]);
    let expected: serde_json::Value = serde_json::from_str(
        r#"[7, true, -2, 65535, 3, 4000000000, -9223372036854775808, 18446744073709551615,
            1.5, null, null, "a{sv}", "/a", ["x"], "Fd(3)"]"#,
    )
    .unwrap();
    assert_eq!(plain(&value_to_json(&value)), expected);
}

#[test]
fn dictionaries_become_objects() {
    let value = Variant::Dict(vec![
        (Basic::Str("a".to_string()), text("first")),
        (Basic::I32(-5), Variant::Basic(Basic::U8(1))),
        (Basic::U64(9), Variant::Basic(Basic::U8(2))),
        (Basic::Bool(false), Variant::Basic(Basic::U8(3))),
        (double(2.5), Variant::Basic(Basic::U8(4))),
        (double(f64::INFINITY), Variant::Basic(Basic::U8(5))),
        (Basic::ObjectPath("/p".to_string()), Variant::Basic(Basic::U8(6))),
        (Basic::Str("a".to_string()), text("last")),
    ]);
    let expected: serde_json::Value = serde_json::from_str(
        r#"{"a": "last", "-5": 1, "9": 2, "false": 3, "2.5": 4, "null": 5, "/p": 6}"#,
    )
    .unwrap();
    assert_eq!(plain(&value_to_json(&value)), expected);
}

fn hyprland() -> Variant {
    Variant::Structure(vec![
        text("hyprland"),
        Variant::Basic(Basic::U32(3)),
        Variant::Value(Box::new(Variant::Dict(vec![
            (Basic::Str("output".to_string()), text("DP-1")),
            (
                Basic::Str("withCursor".to_string()),
                Variant::Value(Box::new(Variant::Basic(Basic::U32(2)))),
            ),
            (
                Basic::Str("timeIssued".to_string()),
                Variant::Value(Box::new(Variant::Basic(Basic::U64(1_786_207_593)))),
            ),
        ]))),
    ])
}

fn pairs(list: &[(String, String)]) -> Vec<(&str, &str)> {
    list.iter().map(|(a, b)| (a.as_str(), b.as_str())).collect()
}

#[test]
fn the_data_of_a_screen_capture_can_be_read() {
    let row = read_entry("screencast", "tok".to_string(), Table::new(), &hyprland());
    assert_eq!(
        pairs(&row.details),
        vec![
            ("output", "DP-1"),
            ("cursor", "embedded in the image"),
            ("backend", "hyprland (format v3)"),
        ]
    );
    assert_eq!(row.issued_at, Some(1_786_207_593));
    assert_eq!((row.table.as_str(), row.id.as_str()), ("screencast", "tok"));

    let other = read_entry("camera", "tok".to_string(), Table::new(), &hyprland());
    assert!(other.details.is_empty());
    assert_eq!(other.issued_at, None);
    assert_eq!(plain(&other.data), plain(&row.data));
}

#[test]
fn what_a_backend_leaves_out_is_left_out() {
    let vendor_only = Json::Array(vec![Json::string("gnome")]);
    let (details, issued) = interpret("screencast", &vendor_only);
    assert_eq!(pairs(&details), vec![("backend", "gnome")]);
    assert_eq!(issued, None);

    let odd = Json::Array(vec![
        Json::Unsigned(1),
        Json::string("3"),
        Json::object().with("withCursor", Json::Unsigned(8)).with("timeIssued", Json::Negative(-4)),
    ]);
    let (details, issued) = interpret("screencast", &odd);
    assert_eq!(pairs(&details), vec![("cursor", "non-standard mode")]);
    assert_eq!(issued, Some(-4));

    assert!(interpret("screencast", &Json::Null).0.is_empty());
    assert_eq!(cursor_mode(1), "hidden");
    assert_eq!(cursor_mode(4), "as metadata");
}
