//! The tables of the permission store and how sensitive each of them is.
//!
//! The store keeps one table per kind of permission. Their names come from the
//! various portal implementations and are written down nowhere, so the
//! catalogue is kept by hand, and a table that is missing from it is treated
//! as one to look into, not as one to ignore.
use vstd::prelude::*;
use crate::text::{same, Text};

verus! {

#[derive(Debug, Clone, Copy, PartialEq, Eq, PartialOrd, Ord, Structural)]
pub enum Risk {
    Info,
    Low,
    Medium,
    High,
}

/// The word for a risk.
pub open spec fn risk_label(risk: Risk) -> Text {
    match risk {
        Risk::High => "HIGH"@,
        Risk::Medium => "MEDIUM"@,
        Risk::Low => "LOW"@,
        Risk::Info => "INFO"@,
    }
}

/// The place of a risk, from the least to the greatest.
pub open spec fn risk_level(risk: Risk) -> int {
    match risk {
        Risk::Info => 0,
        Risk::Low => 1,
        Risk::Medium => 2,
        Risk::High => 3,
    }
}

impl Risk {
    pub fn label(self) -> (r: &'static str)
        ensures
            r@ == risk_label(self),
    {
        match self {
            Risk::High => "HIGH",
            Risk::Medium => "MEDIUM",
            Risk::Low => "LOW",
            Risk::Info => "INFO",
        }
    }

    /// The place of the risk, from the least to the greatest.
    pub fn level(self) -> (r: i128)
        ensures
            r == risk_level(self),
    {
        match self {
            Risk::Info => 0,
            Risk::Low => 1,
            Risk::Medium => 2,
            Risk::High => 3,
        }
    }

    /// The name of the risk in JSON reports.
    pub fn json_name(self) -> (r: &'static str)
        ensures
            r@ == risk_json_name(self),
    {
        match self {
            Risk::High => "high",
            Risk::Medium => "medium",
            Risk::Low => "low",
            Risk::Info => "info",
        }
    }
}

/// The name of a risk in JSON reports.
pub open spec fn risk_json_name(risk: Risk) -> Text {
    match risk {
        Risk::High => "high"@,
        Risk::Medium => "medium"@,
        Risk::Low => "low"@,
        Risk::Info => "info"@,
    }
}

/// What is known of a table.
pub struct TableInfo {
    /// The name to show.
    pub display: &'static str,
    pub risk: Risk,
    /// What the permission allows, in one line.
    pub grants: &'static str,
}

/// What is known of a table, as the contracts see it.
pub struct TableInfoView {
    pub display: Text,
    pub risk: Risk,
    pub grants: Text,
}

impl View for TableInfo {
    type V = TableInfoView;

    open spec fn view(&self) -> TableInfoView {
        TableInfoView { display: self.display@, risk: self.risk, grants: self.grants@ }
    }
}

/// A row of the catalogue.
pub open spec fn entry(display: &str, risk: Risk, grants: &str) -> Option<TableInfoView> {
    Some(TableInfoView { display: display@, risk, grants: grants@ })
}

/// The catalogue: what is known of each table in it.
pub open spec fn catalogue(table: Text) -> Option<TableInfoView> {
    if table == "screencast"@ {
        entry("ScreenCast", Risk::High, "continuous screen capture, resumable without asking again")
    } else if table == "screenshot"@ {
        entry("Screenshot", Risk::High, "one-off screenshots, potentially with no visible prompt")
    } else if table == "camera"@ {
        entry("Camera", Risk::High, "access to the camera")
    } else if table == "devices"@ {
        entry("Devices", Risk::High, "access to input devices, camera and microphone")
    } else if table == "location"@ {
        entry("Location", Risk::High, "the machine's geographic location")
    } else if table == "remote-desktop"@ {
        entry("RemoteDesktop", Risk::High, "remote control of keyboard and pointer")
    } else if table == "background"@ {
        entry("Background", Risk::Medium, "running in the background and starting at login")
    } else if table == "notifications"@ {
        entry("Notifications", Risk::Low, "sending desktop notifications")
    } else if table == "wallpaper"@ {
        entry("Wallpaper", Risk::Low, "changing the desktop wallpaper")
    } else if table == "inhibit"@ {
        entry("Inhibit", Risk::Low, "blocking the screensaver and suspend")
    } else if table == "desktop-used-apps"@ {
        entry("Used apps", Risk::Info, "history of which application opens each file type")
    } else if table == "gnome"@ {
        entry("GNOME", Risk::Info, "internal settings of the GNOME backend")
    } else {
        None
    }
}

/// What is said of a table that is missing from the catalogue. Its risk is medium on
/// purpose: unknown does not mean harmless.
pub open spec fn uncatalogued() -> TableInfoView {
    TableInfoView {
        display: "unknown"@,
        risk: Risk::Medium,
        grants: "table missing from wayward's catalogue; review it by hand"@,
    }
}

/// What is said of a table.
pub open spec fn info(table: Text) -> TableInfoView {
    match catalogue(table) {
        Some(found) => found,
        None => uncatalogued(),
    }
}

fn row(display: &'static str, risk: Risk, grants: &'static str) -> (r: TableInfo)
    ensures
        r@ == (TableInfoView { display: display@, risk, grants: grants@ }),
{
    TableInfo { display, risk, grants }
}

/// What is said of a table.
pub fn lookup(table: &str) -> (r: TableInfo)
    ensures
        r@ == info(table@),
{
    if same(table, "screencast") {
        row("ScreenCast", Risk::High, "continuous screen capture, resumable without asking again")
    } else if same(table, "screenshot") {
        row("Screenshot", Risk::High, "one-off screenshots, potentially with no visible prompt")
    } else if same(table, "camera") {
        row("Camera", Risk::High, "access to the camera")
    } else if same(table, "devices") {
        row("Devices", Risk::High, "access to input devices, camera and microphone")
    } else if same(table, "location") {
        row("Location", Risk::High, "the machine's geographic location")
    } else if same(table, "remote-desktop") {
        row("RemoteDesktop", Risk::High, "remote control of keyboard and pointer")
    } else if same(table, "background") {
        row("Background", Risk::Medium, "running in the background and starting at login")
    } else if same(table, "notifications") {
        row("Notifications", Risk::Low, "sending desktop notifications")
    } else if same(table, "wallpaper") {
        row("Wallpaper", Risk::Low, "changing the desktop wallpaper")
    } else if same(table, "inhibit") {
        row("Inhibit", Risk::Low, "blocking the screensaver and suspend")
    } else if same(table, "desktop-used-apps") {
        row("Used apps", Risk::Info, "history of which application opens each file type")
    } else if same(table, "gnome") {
        row("GNOME", Risk::Info, "internal settings of the GNOME backend")
    } else {
        row("unknown", Risk::Medium, "table missing from wayward's catalogue; review it by hand")
    }
}

/// A table that is missing from the catalogue is never passed off as harmless:
/// its risk is medium.
pub proof fn law_uncatalogued_is_medium(table: Text)
    requires
        catalogue(table) is None,
    ensures
        info(table).risk == Risk::Medium,
{
}

// ---------------------------------------------------------------------------
// What the catalogue promises
// ---------------------------------------------------------------------------
/// The risk of every table, with the names spelled out: what exposes the screen,
/// the camera, the devices, the place or the controls of the machine is of high
/// risk, and nothing else is.
#[verifier::rlimit(50)]
pub proof fn law_risk_of_each_table(table: Text)
    ensures
        info(table).risk == Risk::High <==> (table == "screencast"@ || table == "screenshot"@ || table
            == "camera"@ || table == "devices"@ || table == "location"@ || table
            == "remote-desktop"@),
        info(table).risk == Risk::Low <==> (table == "notifications"@ || table == "wallpaper"@ || table
            == "inhibit"@),
        info(table).risk == Risk::Info <==> (table == "desktop-used-apps"@ || table == "gnome"@),
{
    reveal_strlit("screencast");
    reveal_strlit("screenshot");
    reveal_strlit("camera");
    reveal_strlit("devices");
    reveal_strlit("location");
    reveal_strlit("remote-desktop");
    reveal_strlit("background");
    reveal_strlit("notifications");
    reveal_strlit("wallpaper");
    reveal_strlit("inhibit");
    reveal_strlit("desktop-used-apps");
    reveal_strlit("gnome");
    assert("screencast"@.len() == 10);
    assert("screenshot"@.len() == 10);
    assert("camera"@.len() == 6);
    assert("devices"@.len() == 7);
    assert("location"@.len() == 8);
    assert("remote-desktop"@.len() == 14);
    assert("background"@.len() == 10);
    assert("notifications"@.len() == 13);
    assert("wallpaper"@.len() == 9);
    assert("inhibit"@.len() == 7);
    assert("desktop-used-apps"@.len() == 17);
    assert("gnome"@.len() == 5);
    assert("screencast"@[6] == 'c');
    assert("screenshot"@[6] == 's');
    assert("screencast"@[0] == 's');
    assert("background"@[0] == 'b');
    assert("screenshot"@[0] == 's');
    assert("devices"@[0] == 'd');
    assert("inhibit"@[0] == 'i');
}

/// The risks are in order, and each has a word of its own, the same in reports
/// for people and for programs but for the case of its letters.
pub proof fn law_risks_are_told_apart(a: Risk, b: Risk)
    ensures
        risk_level(a) < risk_level(b) <==> match b {
            Risk::Info => false,
            Risk::Low => a == Risk::Info,
            Risk::Medium => a == Risk::Info || a == Risk::Low,
            Risk::High => a != Risk::High,
        },
        risk_label(a) == risk_label(b) ==> a == b,
        risk_json_name(a) == risk_json_name(b) ==> a == b,
        crate::format::same_but_case(risk_label(a), risk_json_name(a)),
        risk_json_name(Risk::High) == "high"@,
        risk_json_name(Risk::Info) == "info"@,
{
    reveal_strlit("HIGH");
    reveal_strlit("MEDIUM");
    reveal_strlit("LOW");
    reveal_strlit("INFO");
    reveal_strlit("high");
    reveal_strlit("medium");
    reveal_strlit("low");
    reveal_strlit("info");
    assert("HIGH"@.len() == 4);
    assert("MEDIUM"@.len() == 6);
    assert("LOW"@.len() == 3);
    assert("INFO"@.len() == 4);
    assert("high"@.len() == 4);
    assert("medium"@.len() == 6);
    assert("low"@.len() == 3);
    assert("info"@.len() == 4);
    assert("HIGH"@[0] == 'H');
    assert("INFO"@[0] == 'I');
    assert("high"@[0] == 'h');
    assert("info"@[0] == 'i');
    assert("MEDIUM"@[0] == 'M');
    assert("medium"@[0] == 'm');
    assert("LOW"@[0] == 'L');
    assert("low"@[0] == 'l');
}

/// What is said of every table: its name as people know it, and what it lets an
/// application do. A table that is not among them is said to be unknown, and to
/// need a look.
#[verifier::rlimit(50)]
pub proof fn law_what_each_table_grants(table: Text)
    ensures
        table == "screencast"@ ==> info(table).display == "ScreenCast"@ && info(table).grants
            == "continuous screen capture, resumable without asking again"@,
        table == "screenshot"@ ==> info(table).display == "Screenshot"@ && info(table).grants
            == "one-off screenshots, potentially with no visible prompt"@,
        table == "camera"@ ==> info(table).display == "Camera"@ && info(table).grants
            == "access to the camera"@,
        table == "devices"@ ==> info(table).display == "Devices"@ && info(table).grants
            == "access to input devices, camera and microphone"@,
        table == "location"@ ==> info(table).display == "Location"@ && info(table).grants
            == "the machine's geographic location"@,
        table == "remote-desktop"@ ==> info(table).display == "RemoteDesktop"@ && info(table).grants
            == "remote control of keyboard and pointer"@,
        table == "background"@ ==> info(table).display == "Background"@ && info(table).grants
            == "running in the background and starting at login"@,
        table == "notifications"@ ==> info(table).display == "Notifications"@ && info(table).grants
            == "sending desktop notifications"@,
        table == "wallpaper"@ ==> info(table).display == "Wallpaper"@ && info(table).grants
            == "changing the desktop wallpaper"@,
        table == "inhibit"@ ==> info(table).display == "Inhibit"@ && info(table).grants
            == "blocking the screensaver and suspend"@,
        table == "desktop-used-apps"@ ==> info(table).display == "Used apps"@ && info(table).grants
            == "history of which application opens each file type"@,
        table == "gnome"@ ==> info(table).display == "GNOME"@ && info(table).grants
            == "internal settings of the GNOME backend"@,
        table != "screencast"@ && table != "screenshot"@ && table != "camera"@ && table != "devices"@ && table != "location"@ && table != "remote-desktop"@ && table != "background"@ && table != "notifications"@ && table != "wallpaper"@ && table != "inhibit"@ && table != "desktop-used-apps"@ && table != "gnome"@ ==> info(table).display == "unknown"@ && info(table).grants
            == "table missing from wayward's catalogue; review it by hand"@ && info(table).risk
            == Risk::Medium,
{
    reveal_strlit("screencast");
    reveal_strlit("screenshot");
    reveal_strlit("camera");
    reveal_strlit("devices");
    reveal_strlit("location");
    reveal_strlit("remote-desktop");
    reveal_strlit("background");
    reveal_strlit("notifications");
    reveal_strlit("wallpaper");
    reveal_strlit("inhibit");
    reveal_strlit("desktop-used-apps");
    reveal_strlit("gnome");
    assert("screencast"@.len() == 10);
    assert("screenshot"@.len() == 10);
    assert("camera"@.len() == 6);
    assert("devices"@.len() == 7);
    assert("location"@.len() == 8);
    assert("remote-desktop"@.len() == 14);
    assert("background"@.len() == 10);
    assert("notifications"@.len() == 13);
    assert("wallpaper"@.len() == 9);
    assert("inhibit"@.len() == 7);
    assert("desktop-used-apps"@.len() == 17);
    assert("gnome"@.len() == 5);
    assert("screencast"@[6] == 'c');
    assert("screenshot"@[6] == 's');
    assert("screencast"@[0] == 's');
    assert("background"@[0] == 'b');
    assert("screenshot"@[0] == 's');
    assert("devices"@[0] == 'd');
    assert("inhibit"@[0] == 'i');
}

} // verus!
