//! The monitor as a systemd user service.
//!
//! Live attribution works only while something is listening. As a service the
//! monitor starts with the graphical session and stops with it.
use vstd::prelude::*;
use crate::paths;
use crate::split::{self, join};
use crate::style::{self, bold, dimmed, green};
use crate::text::{self, Text};

verus! {

/// The name of the unit.
pub open spec fn unit_name() -> Text {
    "wayward.service"@
}

/// Where the unit is kept.
pub open spec fn unit_file(xdg_config_home: Option<Seq<u8>>, home: Option<Seq<u8>>) -> Seq<u8> {
    paths::path_join(
        paths::path_join(
            paths::path_join(
                paths::base_dir(xdg_config_home, home, paths::bytes(".config"), None),
                paths::bytes("systemd"),
            ),
            paths::bytes("user"),
        ),
        paths::bytes("wayward.service"),
    )
}

/// Where the unit is kept, given `XDG_CONFIG_HOME` and `HOME`.
pub fn unit_path(xdg_config_home: Option<Vec<u8>>, home: Option<Vec<u8>>) -> (r: Vec<u8>)
    ensures
        r@ == unit_file(text::opt(xdg_config_home), text::opt(home)),
{
    let base = paths::base(xdg_config_home, home, ".config", None);
    paths::join(paths::join(paths::join(base, "systemd"), "user"), "wayward.service")
}

/// The unit that runs an executable.
pub open spec fn unit_of(exe: Text) -> Text {
    "[Unit]\nDescription=wayward — watch desktop-portal permission grants\nDocumentation=https://github.com/PaskiDev/wayward\nPartOf=graphical-session.target\nAfter=graphical-session.target\n\n[Service]\nType=simple\nExecStart="@
        + exe
        + " watch --daemon\nRestart=on-failure\nRestartSec=5\n\n[Install]\nWantedBy=graphical-session.target\n"@
}

/// The unit that runs an executable. It names the file and not a command, so
/// that there is no doubt which copy is going to run.
pub fn unit_text(exe: &str) -> (r: String)
    ensures
        r@ == unit_of(exe@),
{
    "[Unit]\nDescription=wayward — watch desktop-portal permission grants\nDocumentation=https://github.com/PaskiDev/wayward\nPartOf=graphical-session.target\nAfter=graphical-session.target\n\n[Service]\nType=simple\nExecStart=".to_owned().concat(
        exe,
    ).concat(
        " watch --daemon\nRestart=on-failure\nRestartSec=5\n\n[Install]\nWantedBy=graphical-session.target\n",
    )
}

/// What to do next.
pub enum Action {
    /// Run `systemctl --user` with these arguments. Where `must` holds, a
    /// failure ends the command.
    Systemctl { arguments: Vec<String>, must: bool },
    /// Print a line.
    Say(String),
}

/// What to do next, as the contracts see it.
pub enum ActionView {
    Systemctl { arguments: Seq<Text>, must: bool },
    Say(Text),
}

impl View for Action {
    type V = ActionView;

    open spec fn view(&self) -> ActionView {
        match self {
            Action::Systemctl { arguments, must } => ActionView::Systemctl {
                arguments: text::views(arguments@),
                must: *must,
            },
            Action::Say(line) => ActionView::Say(line@),
        }
    }
}

/// A run of `systemctl --user` whose failure ends the command.
pub open spec fn run(arguments: Seq<Text>) -> ActionView {
    ActionView::Systemctl { arguments, must: true }
}

/// A list of arguments.
fn arguments(list: Vec<&'static str>) -> (r: Vec<String>)
    ensures
        text::views(r@) == text::views(list@),
{
    broadcast use crate::text::group_views;

    let mut out: Vec<String> = Vec::new();
    let mut i: usize = 0;
    while i < list.len()
        invariant
            i <= list@.len(),
            text::views(out@) == text::views(list@).take(i as int),
        decreases list@.len() - i,
    {
        proof {
            assert(text::views(list@).take(i + 1) =~= text::views(list@).take(i as int).push(
                list@[i as int]@,
            ));
        }
        out.push(list[i].to_owned());
        i = i + 1;
    }
    proof {
        assert(text::views(list@).take(i as int) =~= text::views(list@));
    }
    out
}

/// What is said where `systemctl --user` fails.
pub open spec fn failed_run(arguments: Seq<Text>) -> Text {
    "systemctl --user "@ + split::joined(arguments, " "@) + " falló"@
}

/// What is said where `systemctl --user` fails.
pub fn failure(arguments: &Vec<String>) -> (r: String)
    ensures
        r@ == failed_run(text::views(arguments@)),
{
    "systemctl --user ".to_owned().concat(join(arguments, " ").as_str()).concat(" falló")
}

// ---------------------------------------------------------------------------
// Installing
// ---------------------------------------------------------------------------
/// A line with a mark of success.
pub open spec fn done(line: Text) -> Text {
    "  "@ + style::in_green("✓"@) + line
}

/// What to do once the unit has been written to `path`: to make systemd read
/// it, and to enable it, right away or for the next session.
pub open spec fn after_writing(start_now: bool, path: Text, exe: Text) -> Seq<ActionView> {
    let written = seq![
        run(seq!["daemon-reload"@]),
        ActionView::Say("\n"@ + done(" "@ + path)),
        ActionView::Say("    "@ + style::in_dim("runs"@) + " "@ + style::in_dim(exe)),
    ];
    if start_now {
        written.push(run(seq!["enable"@, "--now"@, unit_name()])).push(
            ActionView::Say(done(" enabled and started"@)),
        ).push(
            ActionView::Say(
                "\n  "@ + style::in_dim(
                    "Every persistent grant from now on gets attributed and announced."@,
                ) + "\n"@,
            ),
        )
    } else {
        written.push(run(seq!["enable"@, unit_name()])).push(
            ActionView::Say(done(" enabled; starts with your next graphical session"@)),
        ).push(
            ActionView::Say(
                "    "@ + style::in_dim(
                    "Start it now with: systemctl --user start wayward.service"@,
                ) + "\n"@,
            ),
        )
    }
}

/// A line with a mark of success.
fn done_line(line: &str) -> (r: String)
    ensures
        r@ == done(line@),
{
    "  ".to_owned().concat(green("✓").as_str()).concat(line)
}

/// What to do once the unit has been written to `path`.
pub fn install(start_now: bool, path: &str, exe: &str) -> (r: Vec<Action>)
    ensures
        text::views(r@) == after_writing(start_now, path@, exe@),
{
    let reload = arguments(vec!["daemon-reload"]);
    let enable = if start_now {
        arguments(vec!["enable", "--now", "wayward.service"])
    } else {
        arguments(vec!["enable", "wayward.service"])
    };
    let place = " ".to_owned().concat(path);
    let mut plan: Vec<Action> = Vec::new();
    plan.push(Action::Systemctl { arguments: reload, must: true });
    plan.push(Action::Say("\n".to_owned().concat(done_line(place.as_str()).as_str())));
    plan.push(
        Action::Say(
            "    ".to_owned().concat(dimmed("runs").as_str()).concat(" ").concat(
                dimmed(exe).as_str(),
            ),
        ),
    );
    plan.push(Action::Systemctl { arguments: enable, must: true });
    if start_now {
        plan.push(Action::Say(done_line(" enabled and started")));
        plan.push(
            Action::Say(
                "\n  ".to_owned().concat(
                    dimmed(
                        "Every persistent grant from now on gets attributed and announced.",
                    ).as_str(),
                ).concat("\n"),
            ),
        );
    } else {
        plan.push(Action::Say(done_line(" enabled; starts with your next graphical session")));
        plan.push(
            Action::Say(
                "    ".to_owned().concat(
                    dimmed("Start it now with: systemctl --user start wayward.service").as_str(),
                ).concat("\n"),
            ),
        );
    }
    proof {
        assert(text::views(reload@) =~= seq!["daemon-reload"@]);
        if start_now {
            assert(text::views(enable@) =~= seq!["enable"@, "--now"@, unit_name()]);
        } else {
            assert(text::views(enable@) =~= seq!["enable"@, unit_name()]);
        }
        assert(text::views(plan@) =~= after_writing(start_now, path@, exe@));
    }
    plan
}

// ---------------------------------------------------------------------------
// Removing
// ---------------------------------------------------------------------------
/// How the unit is stopped before it is removed: it may not be running, or
/// may never have been enabled, so a failure does not count.
pub open spec fn stopping() -> ActionView {
    ActionView::Systemctl { arguments: seq!["disable"@, "--now"@, unit_name()], must: false }
}

/// How the unit is stopped before it is removed.
pub fn uninstall() -> (r: Action)
    ensures
        r@ == stopping(),
{
    let disable = arguments(vec!["disable", "--now", "wayward.service"]);
    proof {
        assert(text::views(disable@) =~= seq!["disable"@, "--now"@, unit_name()]);
    }
    Action::Systemctl { arguments: disable, must: false }
}

/// What to do once the unit has been removed, or was not there to remove.
pub open spec fn after_removal(removed: bool, path: Text) -> Seq<ActionView> {
    if removed {
        seq![
            ActionView::Say("\n"@ + done(" removed "@ + path + "\n"@)),
            run(seq!["daemon-reload"@]),
            ActionView::Say(
                "  "@ + style::in_dim(
                    "The attribution map is kept; delete it by hand if you want it gone."@,
                ) + "\n"@,
            ),
        ]
    } else {
        seq![ActionView::Say("\n  "@ + style::in_dim(unit_name()) + " was not installed\n"@)]
    }
}

/// What to do once the unit has been removed, or was not there to remove.
pub fn removed(found: bool, path: &str) -> (r: Vec<Action>)
    ensures
        text::views(r@) == after_removal(found, path@),
{
    let mut plan: Vec<Action> = Vec::new();
    if found {
        let line = " removed ".to_owned().concat(path).concat("\n");
        let reload = arguments(vec!["daemon-reload"]);
        proof {
            assert(text::views(reload@) =~= seq!["daemon-reload"@]);
        }
        plan.push(Action::Say("\n".to_owned().concat(done_line(line.as_str()).as_str())));
        plan.push(Action::Systemctl { arguments: reload, must: true });
        plan.push(
            Action::Say(
                "  ".to_owned().concat(
                    dimmed(
                        "The attribution map is kept; delete it by hand if you want it gone.",
                    ).as_str(),
                ).concat("\n"),
            ),
        );
    } else {
        plan.push(
            Action::Say(
                "\n  ".to_owned().concat(dimmed("wayward.service").as_str()).concat(
                    " was not installed\n",
                ),
            ),
        );
    }
    proof {
        assert(text::views(plan@) =~= after_removal(found, path@));
    }
    plan
}

// ---------------------------------------------------------------------------
// Looking
// ---------------------------------------------------------------------------
/// How the state of the unit is shown. systemd says by a failure that the
/// unit is stopped, which is no failure here.
pub open spec fn looking(installed: bool) -> ActionView {
    if installed {
        ActionView::Systemctl {
            arguments: seq!["status"@, "--no-pager"@, unit_name()],
            must: false,
        }
    } else {
        ActionView::Say(
            "\n  "@ + style::in_bold("Not installed."@)
                + " install it with: wayward service install\n"@,
        )
    }
}

/// How the state of the unit is shown.
pub fn status(installed: bool) -> (r: Action)
    ensures
        r@ == looking(installed),
{
    if installed {
        let show = arguments(vec!["status", "--no-pager", "wayward.service"]);
        proof {
            assert(text::views(show@) =~= seq!["status"@, "--no-pager"@, unit_name()]);
        }
        Action::Systemctl { arguments: show, must: false }
    } else {
        Action::Say(
            "\n  ".to_owned().concat(bold("Not installed.").as_str()).concat(
                " install it with: wayward service install\n",
            ),
        )
    }
}

// ---------------------------------------------------------------------------
// What the service comes to
// ---------------------------------------------------------------------------
/// The unit names the executable in its start.
#[verifier::rlimit(50)]
proof fn lemma_unit_head()
    ensures
        "ExecStart="@.is_suffix_of("[Unit]\nDescription=wayward — watch desktop-portal permission grants\nDocumentation=https://github.com/PaskiDev/wayward\nPartOf=graphical-session.target\nAfter=graphical-session.target\n\n[Service]\nType=simple\nExecStart="@),
{
    let head = "[Unit]\nDescription=wayward — watch desktop-portal permission grants\nDocumentation=https://github.com/PaskiDev/wayward\nPartOf=graphical-session.target\nAfter=graphical-session.target\n\n[Service]\nType=simple\nExecStart="@;
    reveal_strlit("[Unit]\nDescription=wayward — watch desktop-portal permission grants\nDocumentation=https://github.com/PaskiDev/wayward\nPartOf=graphical-session.target\nAfter=graphical-session.target\n\n[Service]\nType=simple\nExecStart=");
    reveal_strlit("ExecStart=");
    assert(head.len() == 214);
    assert("ExecStart="@.len() == 10);
    assert(head.subrange(204, 214) =~= "ExecStart="@);
}

/// What follows the executable in the unit.
#[verifier::rlimit(50)]
proof fn lemma_unit_tail()
    ensures
        ({
            let tail = " watch --daemon\nRestart=on-failure\nRestartSec=5\n\n[Install]\nWantedBy=graphical-session.target\n"@;
            &&& " watch --daemon\n"@.is_prefix_of(tail)
            &&& split::occurs_in(tail, "WantedBy=graphical-session.target\n"@)
            &&& split::occurs_in(tail, "Restart=on-failure\n"@)
        }),
{
    let tail = " watch --daemon\nRestart=on-failure\nRestartSec=5\n\n[Install]\nWantedBy=graphical-session.target\n"@;
    reveal_strlit(" watch --daemon\nRestart=on-failure\nRestartSec=5\n\n[Install]\nWantedBy=graphical-session.target\n");
    reveal_strlit(" watch --daemon\n");
    reveal_strlit("WantedBy=graphical-session.target\n");
    reveal_strlit("Restart=on-failure\n");
    assert(tail.len() == 93);
    assert(" watch --daemon\n"@.len() == 16);
    assert("WantedBy=graphical-session.target\n"@.len() == 34);
    assert("Restart=on-failure\n"@.len() == 19);
    assert(tail.subrange(0, 16) =~= " watch --daemon\n"@);
    assert(tail.subrange(59, 93) =~= "WantedBy=graphical-session.target\n"@);
    assert(tail.subrange(16, 35) =~= "Restart=on-failure\n"@);
    assert(split::occurs_at(tail, "WantedBy=graphical-session.target\n"@, 59));
    assert(split::occurs_at(tail, "Restart=on-failure\n"@, 16));
}

/// Installing makes systemd read the unit before it enables it, and starts it at
/// once exactly where that is wanted; a failure of either ends the command.
pub proof fn law_how_it_is_installed(start_now: bool, path: Text, exe: Text)
    ensures
        ({
            let plan = after_writing(start_now, path, exe);
            &&& plan.len() == 6
            &&& plan[0] == ActionView::Systemctl { arguments: seq!["daemon-reload"@], must: true }
            &&& plan[3] == ActionView::Systemctl {
                arguments: if start_now {
                    seq!["enable"@, "--now"@, "wayward.service"@]
                } else {
                    seq!["enable"@, "wayward.service"@]
                },
                must: true,
            }
            &&& plan[1] matches ActionView::Say(line) && split::occurs_in(line, path)
            &&& plan[2] matches ActionView::Say(line) && split::occurs_in(line, exe)
            &&& plan[4] is Say && plan[5] is Say
        }),
{
    broadcast use crate::split::group_occurs;

}

/// Removing stops and disables the unit first, whether or not it runs; once the
/// file is gone systemd reads its units anew, and where there was none nothing
/// is run.
pub proof fn law_how_it_is_removed(path: Text)
    ensures
        stopping() == (ActionView::Systemctl {
            arguments: seq!["disable"@, "--now"@, "wayward.service"@],
            must: false,
        }),
        after_removal(true, path).len() == 3,
        after_removal(true, path)[1] == (ActionView::Systemctl {
            arguments: seq!["daemon-reload"@],
            must: true,
        }),
        after_removal(true, path)[0] matches ActionView::Say(line) && split::occurs_in(line, path),
        after_removal(true, path)[2] is Say,
        after_removal(false, path).len() == 1 && after_removal(false, path)[0] is Say,
{
    broadcast use crate::split::group_occurs;

}

/// The state of the unit is asked of systemd where it is installed, and systemd's
/// failure is no failure; else it is said how to install it.
pub proof fn law_how_its_state_is_shown()
    ensures
        looking(true) == (ActionView::Systemctl {
            arguments: seq!["status"@, "--no-pager"@, "wayward.service"@],
            must: false,
        }),
        looking(false) is Say,
{
}

/// A failure of systemd names every argument that it was run with.
pub proof fn law_a_failure_names_the_run(arguments: Seq<Text>)
    ensures
        split::occurs_in(failed_run(arguments), "systemctl --user "@ + split::joined(arguments, " "@)),
{
    broadcast use crate::split::group_occurs;

}

/// The unit is kept with the user's other units.
pub proof fn law_where_the_unit_is_kept(dir: Seq<u8>, home: Option<Seq<u8>>, own: Seq<u8>)
    requires
        dir.len() > 0,
    ensures
        unit_file(Some(dir), home) == paths::path_join(
            paths::path_join(
                paths::path_join(dir, paths::bytes("systemd")),
                paths::bytes("user"),
            ),
            paths::bytes("wayward.service"),
        ),
        unit_file(None, Some(own)) == unit_file(
            Some(paths::path_join(own, paths::bytes(".config"))),
            home,
        ) || paths::path_join(own, paths::bytes(".config")).len() == 0,
{
}

/// The unit runs the executable that was named, as a watch that prints grants
/// only, and belongs to the graphical session.
#[verifier::rlimit(50)]
pub proof fn law_the_unit_runs_the_executable(exe: Text)
    ensures
        split::occurs_in(unit_of(exe), "ExecStart="@ + exe + " watch --daemon\n"@),
        split::occurs_in(unit_of(exe), "WantedBy=graphical-session.target\n"@),
        split::occurs_in(unit_of(exe), "Restart=on-failure\n"@),
{
    let head = "[Unit]\nDescription=wayward — watch desktop-portal permission grants\nDocumentation=https://github.com/PaskiDev/wayward\nPartOf=graphical-session.target\nAfter=graphical-session.target\n\n[Service]\nType=simple\nExecStart="@;
    let tail = " watch --daemon\nRestart=on-failure\nRestartSec=5\n\n[Install]\nWantedBy=graphical-session.target\n"@;
    lemma_unit_head();
    lemma_unit_tail();
    let start = "ExecStart="@;
    let how = " watch --daemon\n"@;
    let before = head.take(head.len() - start.len());
    let after = tail.skip(how.len() as int);
    assert(head =~= before + start);
    assert(tail =~= how + after);
    split::lemma_occurs(unit_of(exe), before, start + exe + how, after);
    split::lemma_occurs_right(head + exe, tail, "WantedBy=graphical-session.target\n"@);
    split::lemma_occurs_right(head + exe, tail, "Restart=on-failure\n"@);
}

} // verus!
