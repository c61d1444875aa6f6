use wayward::journal::{
    beats_keyword, is_infrastructure, journal_arguments, keywords, message_of, rank, resolve, Candidate,
    Confidence, Output, Resolution, Sighting,
};
use wayward::json::{parse, Json};

#[test]
fn la_infraestructura_se_descarta_por_prefijo() {
    // The kernel cuts a command name off after fifteen characters: compared for
    // equality, the portal would be a candidate in every attribution.
    assert!(is_infrastructure("xdg-desktop-por"));
    assert!(is_infrastructure("systemd-logind"));
    assert!(is_infrastructure("pipewire-pulse"));
    assert!(is_infrastructure("wayward"));
    assert!(!is_infrastructure("obs"));
    assert!(!is_infrastructure("vesktop"));
}

#[test]
fn cada_tabla_busca_sus_propias_palabras() {
    assert!(keywords("screencast").contains(&"screencast"));
    assert!(keywords("camera").contains(&"camera"));
    // A table that is not in the catalogue has something to look for too.
    assert!(!keywords("inventada").is_empty());
}

/// OBS loads `linux-pipewire.so` and writes "setting up screencast" a moment
/// later: the second line is much better evidence, though it comes later.
#[test]
fn la_palabra_mas_especifica_gana_a_la_mas_cercana() {
    let palabras = keywords("screencast");
    let screencast = palabras.iter().position(|w| *w == "screencast").unwrap();
    let pipewire = palabras.iter().position(|w| *w == "pipewire").unwrap();
    assert!(screencast < pipewire, "la lista debe ir de específica a genérica");

    let flojo = (pipewire, 0i64, "loading linux-pipewire.so".to_string());
    assert!(
        beats_keyword(Some(&flojo), screencast, 1),
        "«screencast» a 1s debe desplazar a «pipewire» a 0s"
    );
}

#[test]
fn a_igual_palabra_gana_la_mas_cercana() {
    let lejos = (0usize, 5i64, "screencast".to_string());
    assert!(beats_keyword(Some(&lejos), 0, 1));
    assert!(!beats_keyword(Some(&lejos), 0, 9));
    assert!(beats_keyword(None, 3, 100), "sin nada previo, cualquiera vale");
}

#[test]
fn el_mensaje_admite_texto_y_bytes() {
    let texto = Json::object().with("MESSAGE", Json::string("setting up screencast"));
    assert_eq!(message_of(&texto), "setting up screencast");

    // The journal hands out bytes where the message is not valid UTF-8.
    let bytes = Json::object().with(
        "MESSAGE",
        Json::Array(vec![
            Json::Unsigned(104),
            Json::Unsigned(111),
            Json::Unsigned(108),
            Json::Unsigned(97),
        ]),
    );
    assert_eq!(message_of(&bytes), "hola");

    assert_eq!(message_of(&Json::object()), "");
}

#[test]
fn a_message_of_bytes_passes_over_what_is_no_byte() {
    let entry = parse(r#"{"MESSAGE": [72, "x", null, -1, 1.5, 361, 255]}"#).unwrap();
    // 361 is 105 in eight bits, and 255 alone is no UTF-8.
    assert_eq!(message_of(&entry), "Hi\u{fffd}");
    assert_eq!(message_of(&parse(r#"{"MESSAGE": 7}"#).unwrap()), "");
    assert_eq!(message_of(&parse("[]").unwrap()), "");
}

fn sighting(comm: &str, offset: i64, message: &str) -> Sighting {
    Sighting {
        comm: comm.to_string(),
        exe: None,
        pid: None,
        offset,
        message: message.to_string(),
        lowered: message.to_string(),
    }
}

fn labels(list: &[Candidate]) -> Vec<(String, Confidence)> {
    list.iter().map(|c| (c.label.clone(), c.confidence)).collect()
}

#[test]
fn candidates_are_ranked_by_evidence() {
    let seen = vec![
        sighting("far", 9, "nothing"),
        sighting("near", 2, "nothing"),
        sighting("late", 8, "screencast"),
        sighting("named", 1, "loading pipewire"),
        sighting("named", 3, "setting up screencast"),
        sighting("far", -7, "nothing else"),
    ];
    let ranked = rank("screencast", 10, &seen);
    assert_eq!(
        labels(&ranked),
        vec![
            ("named".to_string(), Confidence::High),
            ("near".to_string(), Confidence::Medium),
            ("late".to_string(), Confidence::Medium),
            ("far".to_string(), Confidence::Low),
        ]
    );
    assert_eq!(ranked[0].evidence, "setting up screencast");
    assert_eq!(ranked[0].offset, 3);
    assert_eq!(ranked[0].lines, 2);
    assert_eq!(ranked[3].offset, -7);
    assert_eq!(ranked[3].evidence, "nothing else");
    assert_eq!(ranked[3].lines, 2);
}

#[test]
fn at_equal_distance_whoever_wrote_more_comes_first() {
    let seen = vec![
        sighting("quiet", 1, "x"),
        sighting("loud", 1, "x"),
        sighting("loud", 5, "x"),
    ];
    let ranked = rank("camera", 10, &seen);
    assert_eq!(ranked[0].label, "loud");
    assert_eq!(ranked[1].label, "quiet");
}

#[test]
fn the_best_candidate_has_to_reach_the_threshold() {
    let seen = vec![sighting("vesktop", 0, "detected game")];
    let resolution = Resolution {
        token: "tok".to_string(),
        table: "screencast".to_string(),
        issued_at: Some(0),
        candidates: rank("screencast", 10, &seen),
    };
    assert!(resolution.best(Confidence::High).is_none());
    assert_eq!(resolution.best(Confidence::Medium).unwrap().label, "vesktop");
    let nobody = Resolution { candidates: Vec::new(), ..resolution };
    assert!(nobody.best(Confidence::Low).is_none());
}

#[test]
fn the_journal_is_asked_for_both_sides_of_the_grant() {
    assert_eq!(
        journal_arguments(1_000, 10),
        vec!["--user", "--no-pager", "-o", "json", "--since", "@990", "--until", "@1010"]
    );
    assert_eq!(journal_arguments(5, 10)[5], "@-5");
}

fn output(stdout: &str) -> Output {
    Output { success: true, stdout: stdout.as_bytes().to_vec(), stderr: Vec::new() }
}

#[test]
fn the_answer_of_the_journal_gives_candidates() {
    let stdout = concat_lines(&[
        r#"{"_COMM":"obs","_EXE":"/usr/bin/obs","_PID":"42","__REALTIME_TIMESTAMP":"1000999999","MESSAGE":"[pipewire] Screencast session created"}"#,
        r#"{"_COMM":"vesktop","_EXE":"/usr/lib/vesktop","_PID":"x","__REALTIME_TIMESTAMP":"1000000000","MESSAGE":"detected game! OBS"}"#,
        r#"{"_COMM":"systemd","__REALTIME_TIMESTAMP":"1000000000","MESSAGE":"screencast"}"#,
        r#"{"_COMM":"","__REALTIME_TIMESTAMP":"1000000000","MESSAGE":"screencast"}"#,
        r#"{"_COMM":"untimed","MESSAGE":"screencast"}"#,
        r#"{"_COMM":"garbled","__REALTIME_TIMESTAMP":"soon","MESSAGE":"screencast"}"#,
        "not json at all",
        "",
    ]);
    let found = resolve("screencast", 1_000, 10, &output(&stdout)).unwrap();
    assert_eq!(
        labels(&found),
        vec![
            ("obs".to_string(), Confidence::High),
            ("vesktop".to_string(), Confidence::Medium),
        ]
    );
    // Small letters are compared, and the message is shown as it was written.
    assert_eq!(found[0].evidence, "[pipewire] Screencast session created");
    assert_eq!(found[0].exe.as_deref(), Some("/usr/bin/obs"));
    assert_eq!(found[0].pid, Some(42));
    assert_eq!(found[0].offset, 0);
    assert_eq!(found[1].pid, None);
}

fn concat_lines(lines: &[&str]) -> String {
    let mut out = String::new();
    for line in lines {
        out.push_str(line);
        out.push('\n');
    }
    out
}

#[test]
fn times_before_the_epoch_are_rounded_toward_it() {
    let stdout = r#"{"_COMM":"a","__REALTIME_TIMESTAMP":"-1500000","MESSAGE":"m"}"#;
    let found = resolve("camera", 0, 10, &output(stdout)).unwrap();
    assert_eq!(found[0].offset, -1);
}

#[test]
fn a_failure_of_the_journal_is_passed_on() {
    let failed = Output {
        success: false,
        stdout: Vec::new(),
        stderr: b"  No journal files were found.\n".to_vec(),
    };
    assert_eq!(
        resolve("camera", 0, 10, &failed).unwrap_err(),
        "journalctl falló: No journal files were found."
    );
}

#[test]
fn words_for_the_levels_of_confidence() {
    assert_eq!(Confidence::High.label(), "high");
    assert_eq!(Confidence::Medium.label(), "medium");
    assert_eq!(Confidence::Low.label(), "low");
    assert!(Confidence::High > Confidence::Medium && Confidence::Medium > Confidence::Low);
}
