use wayward::attrib::{cache_path, Cache, Identity};
use wayward::clock::{clock, current_second, full_date, now, short_stamp, unix_seconds};
use wayward::notify::grant;
use wayward::risk::{lookup, Risk};
use wayward::service::{failure, install, removed, status, uninstall, unit_path, unit_text, Action};

fn named(exe: Option<&str>, comm: Option<&str>, cmdline: Option<&str>, pid: Option<u32>) -> Identity {
    Identity {
        pid,
        exe: exe.map(str::to_string),
        cmdline: cmdline.map(str::to_string),
        comm: comm.map(str::to_string),
    }
}

#[test]
fn the_label_is_the_first_name_that_is_known() {
    assert_eq!(named(Some("/usr/bin/obs"), Some("x"), None, None).label(), "obs");
    assert_eq!(named(Some("/usr/bin/obs (deleted)"), None, None, None).label(), "obs");
    assert_eq!(named(Some("/usr/bin/"), Some("comm"), None, None).label(), "comm");
    assert_eq!(named(None, None, Some("  python3 -m app"), None).label(), "python3");
    assert_eq!(named(None, None, Some("  "), Some(7)).label(), "pid 7");
    assert_eq!(Identity::default().label(), "unknown");
}

#[test]
fn a_process_is_read_from_proc() {
    let identity = Identity::from_pid(
        42,
        Some(b"/opt/\xffapp".to_vec()),
        Some(b"app\0--flag\0\0value\0".to_vec()),
        Some("app\n".to_string()),
    );
    assert_eq!(identity.pid, Some(42));
    assert_eq!(identity.exe.as_deref(), Some("/opt/\u{fffd}app"));
    assert_eq!(identity.cmdline.as_deref(), Some("app --flag value"));
    assert_eq!(identity.comm.as_deref(), Some("app"));

    let kernel_thread = Identity::from_pid(2, None, Some(Vec::new()), Some(" \n".to_string()));
    assert_eq!(kernel_thread.cmdline, None);
    assert_eq!(kernel_thread.comm, None);
    assert_eq!(kernel_thread.label(), "pid 2");
}

#[test]
fn the_first_sighting_stays() {
    let mut cache = Cache::default();
    cache.observe("tok", named(None, Some("first"), None, None), "screencast", 10);
    cache.observe("other", named(None, Some("other"), None, None), "camera", 15);
    cache.observe("tok", named(None, Some("second"), None, None), "devices", 20);
    let record = cache.get("tok").unwrap();
    assert_eq!(record.identity.label(), "second");
    assert_eq!(record.table, "screencast");
    assert_eq!((record.first_seen, record.last_seen), (10, 20));
    assert_eq!(cache.get("other").unwrap().last_seen, 15);
    assert!(cache.get("missing").is_none());
    assert_eq!(cache.tokens.len(), 2);
}

#[test]
fn the_attributions_stand_below_the_state_directory() {
    assert_eq!(
        cache_path(None, Some(b"/home/ana".to_vec())),
        b"/home/ana/.local/state/wayward/attribution.json".to_vec()
    );
    assert_eq!(
        cache_path(Some(b"rel".to_vec()), None),
        b"rel/wayward/attribution.json".to_vec()
    );
}

#[test]
fn the_clock_is_that_of_the_machine() {
    let before = std::time::SystemTime::now()
        .duration_since(std::time::UNIX_EPOCH)
        .unwrap()
        .as_secs() as i64;
    let seen = now();
    assert!(before <= seen && seen <= before + 5);
    assert_eq!(unix_seconds(None), 0);
    assert_eq!(unix_seconds(Some(7)), 7);
}

#[test]
fn the_calendar_has_an_end() {
    assert!(full_date(253_402_207_200).is_some());
    assert!(full_date(253_402_207_201).is_none());
    assert!(full_date(-377_705_023_201).is_some());
    assert!(full_date(-377_705_023_202).is_none());
    let date = full_date(1_786_207_593).unwrap();
    assert_eq!(date.len(), "2026-08-08 18:46".len());
    assert!(date.starts_with("2026-08-0"));
}

#[test]
fn dates_are_those_of_the_machine_s_time_zone() {
    for ts in [1_786_207_593, 0, -1, -86_401, 253_402_207_200, -377_705_023_201, 1_720_493_204] {
        let zoned = jiff::Timestamp::from_second(ts).unwrap().to_zoned(jiff::tz::TimeZone::system());
        let full = full_date(ts).unwrap();
        let short = short_stamp(ts);
        assert_eq!(full, zoned.strftime("%Y-%m-%d %H:%M").to_string());
        assert_eq!(short, zoned.strftime("%d %b %H:%M").to_string());
        assert!(full.len() == 16 || full.len() == 17);
        assert_eq!(short.len(), 12);
        let second = (ts + i64::from(zoned.offset().seconds())).rem_euclid(86_400);
        let time = format!(" {:02}:{:02}", second / 3600, second / 60 % 60);
        assert!(full.ends_with(&time));
        assert!(short.ends_with(&time));
    }
    assert_eq!(short_stamp(253_402_207_201), "253402207201");
    assert_eq!(short_stamp(-377_705_023_202), "-377705023202");
}

#[test]
fn the_clock_shows_hours_minutes_and_seconds() {
    let reads = || {
        let zoned = jiff::Timestamp::now().to_zoned(jiff::tz::TimeZone::system());
        zoned.strftime("%H:%M:%S").to_string()
    };
    let mut agreed = false;
    for _ in 0..5 {
        let before = reads();
        let seen = clock();
        assert_eq!(seen.len(), 8);
        assert_eq!((&seen[2..3], &seen[5..6]), (":", ":"));
        agreed = agreed || (before == seen && seen == reads());
    }
    assert!(agreed);
}

#[test]
fn a_clock_before_the_epoch_runs_forward_too() {
    assert_eq!(current_second(Some((5, 999_999_999)), true), 5);
    assert_eq!(current_second(Some((0, 0)), true), 0);
    assert_eq!(current_second(Some((0, -1)), false), -1);
    assert_eq!(current_second(Some((-5, -999_999_999)), false), -6);
    assert_eq!(current_second(Some((-5, 0)), false), -5);
    assert_eq!(current_second(None, true), 253_402_207_200);
    assert_eq!(current_second(None, false), -377_705_023_201);
}

#[test]
fn the_catalogue_of_tables() {
    let info = lookup("screencast");
    assert_eq!(info.display, "ScreenCast");
    assert_eq!(info.risk, Risk::High);
    assert_eq!(info.grants, "continuous screen capture, resumable without asking again");
    assert_eq!(lookup("background").risk, Risk::Medium);
    assert_eq!(lookup("wallpaper").risk, Risk::Low);
    assert_eq!(lookup("gnome").risk, Risk::Info);
    let missing = lookup("inventada");
    assert_eq!(missing.display, "unknown");
    assert_eq!(missing.risk, Risk::Medium);
    assert!(Risk::High > Risk::Medium && Risk::Low > Risk::Info);
    assert_eq!(Risk::High.label(), "HIGH");
    assert_eq!(Risk::Info.json_name(), "info");
}

#[test]
fn a_high_risk_raises_a_critical_notification() {
    let obs = named(Some("/usr/bin/obs"), None, None, None);
    let raised = grant(&obs, "screencast", "tok");
    assert_eq!(raised.summary, "obs gained persistent access");
    assert_eq!(
        raised.body,
        "continuous screen capture, resumable without asking again\n<i>/usr/bin/obs</i>\n\nToken tok\nRevoke with: wayward revoke tok"
    );
    assert_eq!((raised.urgency, raised.timeout), (2, 0));
    assert_eq!((raised.app_name, raised.icon, raised.category), ("wayward", "camera-web", "device"));

    let quiet = grant(&Identity::default(), "wallpaper", "tok");
    assert_eq!((quiet.urgency, quiet.timeout), (1, -1));
    assert!(quiet.body.contains("<i>unknown executable</i>"));
}

fn shown(actions: &[Action]) -> Vec<String> {
    actions
        .iter()
        .map(|action| match action {
            Action::Systemctl { arguments, must } => format!("{} {}", arguments.join(" "), must),
            Action::Say(line) => line.clone(),
        })
        .collect()
}

#[test]
fn the_service_is_installed_and_removed() {
    assert_eq!(
        unit_path(None, Some(b"/home/ana".to_vec())),
        b"/home/ana/.config/systemd/user/wayward.service".to_vec()
    );
    assert_eq!(
        unit_text("/usr/bin/wayward"),
        "[Unit]\n\
         Description=wayward — watch desktop-portal permission grants\n\
         Documentation=https://github.com/PaskiDev/wayward\n\
         PartOf=graphical-session.target\n\
         After=graphical-session.target\n\
         \n\
         [Service]\n\
         Type=simple\n\
         ExecStart=/usr/bin/wayward watch --daemon\n\
         Restart=on-failure\n\
         RestartSec=5\n\
         \n\
         [Install]\n\
         WantedBy=graphical-session.target\n"
    );
    assert_eq!(
        shown(&install(true, "/u", "/w")),
        vec![
            "daemon-reload true",
            "\n  \u{1b}[32m✓\u{1b}[39m /u",
            "    \u{1b}[2mruns\u{1b}[0m \u{1b}[2m/w\u{1b}[0m",
            "enable --now wayward.service true",
            "  \u{1b}[32m✓\u{1b}[39m enabled and started",
            "\n  \u{1b}[2mEvery persistent grant from now on gets attributed and announced.\u{1b}[0m\n",
        ]
    );
    assert_eq!(
        shown(&install(false, "/u", "/w"))[3..],
        [
            "enable wayward.service true",
            "  \u{1b}[32m✓\u{1b}[39m enabled; starts with your next graphical session",
            "    \u{1b}[2mStart it now with: systemctl --user start wayward.service\u{1b}[0m\n",
        ]
    );
    assert_eq!(shown(&[uninstall()]), vec!["disable --now wayward.service false"]);
    assert_eq!(
        shown(&removed(true, "/u")),
        vec![
            "\n  \u{1b}[32m✓\u{1b}[39m removed /u\n",
            "daemon-reload true",
            "  \u{1b}[2mThe attribution map is kept; delete it by hand if you want it gone.\u{1b}[0m\n",
        ]
    );
    assert_eq!(
        shown(&removed(false, "/u")),
        vec!["\n  \u{1b}[2mwayward.service\u{1b}[0m was not installed\n"]
    );
    assert_eq!(shown(&[status(true)]), vec!["status --no-pager wayward.service false"]);
    assert_eq!(
        shown(&[status(false)]),
        vec!["\n  \u{1b}[1mNot installed.\u{1b}[0m install it with: wayward service install\n"]
    );
    assert_eq!(
        failure(&vec!["enable".to_string(), "x".to_string()]),
        "systemctl --user enable x falló"
    );
}
