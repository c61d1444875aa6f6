use wayward::attrib::Identity;
use wayward::sessions::{branch_path, child_nodes, live, owner_name, root, unique_name_from, Answer};

#[test]
fn el_fragmento_recupera_el_nombre_unico() {
    assert_eq!(unique_name_from("1_181"), ":1.181");
    assert_eq!(unique_name_from("1_1066"), ":1.1066");
}

/// There and back with the transformation that the portal applies.
#[test]
fn la_conversion_es_reversible() {
    for unique in [":1.5", ":1.181", ":1.99999"] {
        let fragment = unique.trim_start_matches(':').replace('.', "_");
        assert_eq!(unique_name_from(&fragment), unique);
    }
}

#[test]
fn se_leen_los_nodos_hijos_y_no_la_raiz() {
    let xml = r#"<!DOCTYPE node PUBLIC "..." "...">
<node name="/org/freedesktop/portal/desktop/session">
  <interface name="org.freedesktop.DBus.Introspectable">
    <method name="Introspect"><arg name="xml" type="s" direction="out"/></method>
  </interface>
  <node name="1_181"/>
  <node name="1_66"/>
</node>"#;
    // The root has an absolute path and is no session.
    assert_eq!(child_nodes(xml), vec!["1_181", "1_66"]);
}

#[test]
fn un_arbol_vacio_no_da_sesiones() {
    let xml = r#"<node name="/org/freedesktop/portal/desktop/session"></node>"#;
    assert!(child_nodes(xml).is_empty());
}

#[test]
fn broken_documents_give_what_can_be_read() {
    assert!(child_nodes("").is_empty());
    assert!(child_nodes("<node name=\"").is_empty());
    assert!(child_nodes("<node name=\"\"/>").is_empty());
    assert!(child_nodes("<node name=\"unfinished").is_empty());
    assert_eq!(child_nodes("<node name=\"a<node name=\"b\"/>"), vec!["b"]);
    assert_eq!(child_nodes("<node name=\"ñ\"/><node name=\"b/c\"/><node name=\"d\">"), vec!["ñ", "d"]);
}

#[test]
fn only_names_that_the_bus_takes_are_asked_about() {
    assert_eq!(owner_name("1_181").as_deref(), Some(":1.181"));
    assert_eq!(owner_name("a-b_C9").as_deref(), Some(":a-b.C9"));
    assert_eq!(owner_name("181"), None);
    assert_eq!(owner_name(""), None);
    assert_eq!(owner_name("1__181"), None);
    assert_eq!(owner_name("1_"), None);
    assert_eq!(owner_name("1_ñ"), None);
    let long = format!("1_{}", "9".repeat(252));
    assert_eq!(owner_name(&long).map(|n| n.len()), Some(255));
    assert_eq!(owner_name(&format!("{long}9")), None);
}

fn obs() -> Identity {
    Identity {
        pid: Some(237842),
        exe: Some("/usr/bin/obs".to_string()),
        cmdline: Some("obs".to_string()),
        comm: Some("obs".to_string()),
    }
}

#[test]
fn sessions_come_by_path_with_their_owners() {
    let two = "<node><node name=\"b\"/><node name=\"a\"/></node>";
    let answers = vec![
        Answer {
            fragment: "1_9".to_string(),
            xml: Some(two.to_string()),
            owners: vec![Some(obs()), None],
        },
        Answer { fragment: "1_8".to_string(), xml: None, owners: Vec::new() },
        Answer {
            fragment: "1_7".to_string(),
            xml: Some("<node name=\"obs1\"/>".to_string()),
            owners: Vec::new(),
        },
    ];
    let sessions = live(&answers);
    let paths: Vec<&str> = sessions.iter().map(|s| s.path.as_str()).collect();
    assert_eq!(
        paths,
        vec![
            "/org/freedesktop/portal/desktop/session/1_7/obs1",
            "/org/freedesktop/portal/desktop/session/1_9/a",
            "/org/freedesktop/portal/desktop/session/1_9/b",
        ]
    );
    assert_eq!(sessions[2].unique_name, ":1.9");
    assert_eq!(sessions[2].token, "b");
    assert_eq!(sessions[2].owner.as_ref().unwrap().pid, Some(237842));
    assert!(sessions[0].owner.is_none() && sessions[1].owner.is_none());
    assert_eq!(branch_path("1_7"), format!("{}/1_7", root()));
    assert!(live(&Vec::new()).is_empty());
}
