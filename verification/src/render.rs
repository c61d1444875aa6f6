//! The reports that the commands print.
use vstd::prelude::*;
use crate::attrib::{Identity, IdentityView};
use crate::clock::{self, date_or_number, full_date, now};
use crate::format::{pad_left, pad_right, truncate};
use crate::journal::{self, Candidate, CandidateView, Confidence, Resolution, ResolutionView};
use crate::json::{self, Items, Json, JsonView};
use crate::number::{self, difference, magnitude};
use crate::report::{Lines, Report, ReportView};
use crate::sessions::{Session, SessionView};
use crate::style::{self, bold, dimmed, green, red, yellow};
use crate::text::{self, decimal, signed_decimal, Text};

verus! {

// ---------------------------------------------------------------------------
// Phrases
// ---------------------------------------------------------------------------
/// The form of a noun that goes with a number.
pub open spec fn noun(n: nat, one: Text, many: Text) -> Text {
    if n == 1 {
        one
    } else {
        many
    }
}

/// The form of a noun that goes with a number.
pub fn plural(n: usize, one: &str, many: &str) -> (r: String)
    ensures
        r@ == noun(n as nat, one@, many@),
{
    if n == 1 {
        one.to_owned()
    } else {
        many.to_owned()
    }
}

/// How long ago something was, in words.
pub open spec fn age(secs: int) -> Text {
    let minutes = secs / 60;
    let hours = secs / 3600;
    let days = secs / 86400;
    if secs < 0 {
        "dated in the future"@
    } else if days >= 2 {
        text::dec(days as nat) + " days ago"@
    } else if days == 1 {
        "1 day ago"@
    } else if hours >= 2 {
        text::dec(hours as nat) + " hours ago"@
    } else if hours == 1 {
        "1 hour ago"@
    } else if minutes >= 2 {
        text::dec(minutes as nat) + " minutes ago"@
    } else {
        "just now"@
    }
}

/// How long ago something was, in words.
pub fn human_age(secs: i64) -> (r: String)
    ensures
        r@ == age(secs as int),
{
    if secs < 0 {
        return "dated in the future".to_owned();
    }
    let secs: u64 = secs as u64;
    let minutes: u64 = secs / 60;
    let hours: u64 = secs / 3600;
    let days: u64 = secs / 86400;
    if days >= 2 {
        decimal(days).concat(" days ago")
    } else if days == 1 {
        "1 day ago".to_owned()
    } else if hours >= 2 {
        decimal(hours).concat(" hours ago")
    } else if hours == 1 {
        "1 hour ago".to_owned()
    } else if minutes >= 2 {
        decimal(minutes).concat(" minutes ago")
    } else {
        "just now".to_owned()
    }
}

/// The time of a grant: its date, and how long ago it was at a given time.
pub open spec fn issued_text(ts: i64, date: Option<Text>, now: i64) -> Text {
    clock::shown_date(ts, date) + " ("@ + age(number::wrapped(now - ts)) + ")"@
}

/// The time of a grant, from its date and the current time.
pub fn issued(ts: i64, date: Option<String>, now: i64) -> (r: String)
    ensures
        r@ == issued_text(ts, text::opt(date), now),
{
    date_or_number(ts, date).concat(" (").concat(human_age(difference(now, ts)).as_str()).concat(")")
}

/// A text that gives the time of a grant: its date, or the bare number where
/// the calendar does not reach, and how long ago it was. The current time is
/// open.
pub open spec fn tells_time(ts: i64, shown: Text) -> bool {
    exists|date: Option<Text>, now: i64|
        clock::is_date(ts, clock::full_layout(), date) && shown == #[trigger] issued_text(
            ts,
            date,
            now,
        )
}

/// The time of a grant.
pub fn format_issued(ts: i64) -> (r: String)
    ensures
        tells_time(ts, r@),
{
    let date = full_date(ts);
    let ghost seen = text::opt(date);
    let moment: i64 = now();
    let r = issued(ts, date, moment);
    proof {
        assert(r@ == issued_text(ts, seen, moment));
    }
    r
}

/// The times of a list of grants, where they are known.
pub open spec fn tell_times(times: Seq<Option<i64>>, shown: Seq<Text>) -> bool {
    &&& shown.len() == times.len()
    &&& forall|i: int|
        0 <= i < times.len() ==> match #[trigger] times[i] {
            Some(ts) => tells_time(ts, shown[i]),
            None => shown[i].len() == 0,
        }
}

/// The times of a list of grants; nothing for those that are not known.
pub(crate) fn format_times(times: &Vec<Option<i64>>) -> (r: Vec<String>)
    ensures
        tell_times(times@, text::views(r@)),
{
    broadcast use crate::text::group_views;

    let mut out: Vec<String> = Vec::new();
    let mut i: usize = 0;
    while i < times.len()
        invariant
            i <= times@.len(),
            out@.len() == i,
            forall|k: int|
                0 <= k < i ==> match #[trigger] times@[k] {
                    Some(ts) => tells_time(ts, text::views(out@)[k]),
                    None => text::views(out@)[k].len() == 0,
                },
        decreases times@.len() - i,
    {
        let shown = match times[i] {
            Some(ts) => format_issued(ts),
            None => String::new(),
        };
        out.push(shown);
        i = i + 1;
    }
    out
}

// ---------------------------------------------------------------------------
// Candidates
// ---------------------------------------------------------------------------
/// A level of confidence in its colour, filled up to a column.
pub open spec fn painted_confidence(confidence: Confidence) -> Text {
    let padded = crate::format::padded_right(journal::confidence_label(confidence), 7);
    match confidence {
        Confidence::High => style::in_bold(style::in_green(padded)),
        Confidence::Medium => style::in_yellow(padded),
        Confidence::Low => style::in_dim(padded),
    }
}

/// A level of confidence in its colour.
pub fn paint_confidence(confidence: Confidence) -> (r: String)
    ensures
        r@ == painted_confidence(confidence),
{
    let padded = pad_right(confidence.label(), 7);
    match confidence {
        Confidence::High => bold(green(padded.as_str()).as_str()),
        Confidence::Medium => yellow(padded.as_str()),
        Confidence::Low => dimmed(padded.as_str()),
    }
}

/// An offset with its sign.
pub open spec fn offset_text(offset: i64) -> Text {
    (if offset >= 0 {
        "+"@
    } else {
        "-"@
    }) + text::signed_dec(number::distance(offset)) + "s"@
}

/// The line of a candidate.
pub open spec fn candidate_line(c: CandidateView) -> Text {
    "    "@ + style::in_bold(
        crate::format::padded_right(crate::format::truncated(c.label, 16), 16),
    ) + " "@ + painted_confidence(c.confidence) + " "@ + crate::format::padded_left(
        offset_text(c.offset),
        4,
    ) + "   "@ + style::in_dim(
        match c.exe {
            Some(exe) => exe,
            None => ""@,
        },
    )
}

/// The lines with those of a candidate added: the evidence stands below.
pub open spec fn with_candidate(l: Seq<Text>, c: CandidateView) -> Seq<Text> {
    let l = l.push(candidate_line(c));
    if c.evidence.len() > 0 {
        l.push(
            "    "@ + crate::format::padded_right(""@, 16) + " "@ + style::in_dim(
                crate::format::truncated(c.evidence, 84),
            ),
        )
    } else {
        l
    }
}

/// The lines with those of some candidates added.
pub open spec fn with_candidates(l: Seq<Text>, list: Seq<CandidateView>) -> Seq<Text>
    decreases list.len(),
{
    if list.len() == 0 {
        l
    } else {
        with_candidate(with_candidates(l, list.drop_last()), list.last())
    }
}

/// At most three candidates: below the third there is nothing but noise.
pub open spec fn leading(list: Seq<CandidateView>) -> Seq<CandidateView> {
    if list.len() > 3 {
        list.take(3)
    } else {
        list
    }
}

/// The lines with those of a permission added, given the time of its grant.
pub open spec fn with_resolution(l: Seq<Text>, r: ResolutionView, date: Text) -> Seq<Text> {
    let shown = if r.issued_at is Some {
        date
    } else {
        "no timestamp recorded"@
    };
    let l = l.push(
        "  "@ + style::in_bold(r.token) + "   "@ + r.table + " · "@ + style::in_dim(shown),
    );
    if r.issued_at is None {
        l.push(
            "    "@ + style::in_dim(
                "This table stores no grant time, so there is nothing to correlate against."@,
            ) + "\n"@,
        )
    } else if r.candidates.len() == 0 {
        l.push(
            "    "@ + style::in_dim(
                "No process logged anything in that window. The journal may not reach back that far."@,
            ) + "\n"@,
        )
    } else {
        with_candidates(l, leading(r.candidates)).push(""@)
    }
}

/// The lines with those of some permissions added.
pub open spec fn with_resolutions(l: Seq<Text>, list: Seq<ResolutionView>, dates: Seq<Text>) -> Seq<Text>
    decreases list.len(),
{
    if list.len() == 0 {
        l
    } else {
        let i = list.len() - 1;
        with_resolution(with_resolutions(l, list.drop_last(), dates), list[i], dates[i])
    }
}

/// The lines of the report on what was recovered from the journal.
pub open spec fn resolution_lines(
    list: Seq<ResolutionView>,
    dates: Seq<Text>,
    written: nat,
    min: Confidence,
) -> Seq<Text> {
    if list.len() == 0 {
        seq![
            "\n  "@ + style::in_bold("Nothing left to resolve."@)
                + "\n\n  Every granted permission already has a name.\n"@,
        ]
    } else {
        let l = with_resolutions(seq![""@], list, dates);
        let l = if written > 0 {
            l.push(
                "  "@ + style::in_green("✓"@) + " "@ + text::dec(written) + " "@ + noun(
                    written,
                    "attribution"@,
                    "attributions"@,
                ) + " written to the attribution map ("@ + journal::confidence_label(min)
                    + " confidence or better)."@,
            )
        } else {
            l.push(
                "  "@ + style::in_dim(
                    "Nothing written. Re-run with --write to persist the attributions above."@,
                ),
            )
        };
        l.push(
            "  "@ + style::in_dim(
                "These are correlations, not proof: a match means the process was logging at the moment the permission was filed."@,
            ) + "\n"@,
        )
    }
}

/// A candidate as a JSON value.
pub open spec fn candidate_value(c: CandidateView) -> JsonView {
    JsonView::Object(
        Map::empty().insert("label"@, JsonView::Str(c.label)).insert(
            "exe"@,
            json::text_view(c.exe),
        ).insert("pid"@, json::pid_view(c.pid)).insert(
            "confidence"@,
            JsonView::Str(journal::confidence_label(c.confidence)),
        ).insert("offset"@, json::int_view(c.offset)).insert(
            "evidence"@,
            JsonView::Str(c.evidence),
        ).insert("lines"@, JsonView::Unsigned(c.lines as u64)),
    )
}

/// What was found out about a permission, as a JSON value.
pub open spec fn resolution_value(r: ResolutionView) -> JsonView {
    JsonView::Object(
        Map::empty().insert("token"@, JsonView::Str(r.token)).insert(
            "table"@,
            JsonView::Str(r.table),
        ).insert("issued_at"@, json::whole_view(r.issued_at)).insert(
            "candidates"@,
            JsonView::Array(
                Seq::new(r.candidates.len(), |i: int| candidate_value(r.candidates[i])),
            ),
        ),
    )
}

/// The report on what was recovered from the journal, as a document.
pub open spec fn resolution_document(
    list: Seq<ResolutionView>,
    written: nat,
    min: Confidence,
    now: i64,
) -> JsonView {
    JsonView::Object(
        Map::empty().insert("generated_at"@, json::int_view(now)).insert(
            "written"@,
            JsonView::Unsigned(written as u64),
        ).insert("min_confidence"@, JsonView::Str(journal::confidence_label(min))).insert(
            "resolutions"@,
            JsonView::Array(Seq::new(list.len(), |i: int| resolution_value(list[i]))),
        ),
    )
}

/// Adds the lines of a candidate.
fn add_candidate(out: &mut Lines, c: &Candidate)
    ensures
        final(out)@ == with_candidate(old(out)@, c@),
{
    let sign = if c.offset >= 0 {
        "+"
    } else {
        "-"
    };
    let name = pad_right(truncate(c.label.as_str(), 16).as_str(), 16);
    let offset = sign.to_owned().concat(signed_decimal(magnitude(c.offset)).as_str()).concat("s");
    let exe = match &c.exe {
        Some(exe) => exe.as_str(),
        None => "",
    };
    out.line(
        "    ".to_owned().concat(bold(name.as_str()).as_str()).concat(" ").concat(
            paint_confidence(c.confidence).as_str(),
        ).concat(" ").concat(pad_left(offset.as_str(), 4).as_str()).concat("   ").concat(
            dimmed(exe).as_str(),
        ),
    );
    if !c.evidence.as_str().is_empty() {
        let evidence = truncate(c.evidence.as_str(), 84);
        out.line(
            "    ".to_owned().concat(pad_right("", 16).as_str()).concat(" ").concat(
                dimmed(evidence.as_str()).as_str(),
            ),
        );
    }
}

/// Adds the lines of a permission.
fn add_resolution(out: &mut Lines, r: &Resolution, date: &str)
    ensures
        final(out)@ == with_resolution(old(out)@, r@, date@),
{
    let shown = if r.issued_at.is_some() {
        date
    } else {
        "no timestamp recorded"
    };
    out.line(
        "  ".to_owned().concat(bold(r.token.as_str()).as_str()).concat("   ").concat(
            r.table.as_str(),
        ).concat(" · ").concat(dimmed(shown).as_str()),
    );
    if r.issued_at.is_none() {
        out.line(
            "    ".to_owned().concat(
                dimmed(
                    "This table stores no grant time, so there is nothing to correlate against.",
                ).as_str(),
            ).concat("\n"),
        );
        return;
    }
    if r.candidates.len() == 0 {
        out.line(
            "    ".to_owned().concat(
                dimmed(
                    "No process logged anything in that window. The journal may not reach back that far.",
                ).as_str(),
            ).concat("\n"),
        );
        return;
    }
    let n: usize = if r.candidates.len() > 3 {
        3
    } else {
        r.candidates.len()
    };
    let ghost heading = out@;
    let ghost all = r@.candidates;
    let mut i: usize = 0;
    proof {
        assert(all.take(0) =~= Seq::empty());
    }
    while i < n
        invariant
            i <= n <= r.candidates@.len(),
            all == r@.candidates,
            out@ == with_candidates(heading, all.take(i as int)),
        decreases n - i,
    {
        proof {
            assert(all.take(i + 1).drop_last() =~= all.take(i as int));
            assert(all.take(i + 1).last() == r.candidates@[i as int]@);
        }
        add_candidate(out, &r.candidates[i]);
        i = i + 1;
    }
    proof {
        assert(all.take(n as int) =~= leading(all));
    }
    out.line("".to_owned());
}

/// A candidate as a JSON value.
fn candidate_json(c: &Candidate) -> (r: Json)
    ensures
        r@ == candidate_value(c@),
{
    Json::object().with("label", Json::string(c.label.as_str())).with(
        "exe",
        Json::text_or_null(&c.exe),
    ).with("pid", Json::pid_or_null(c.pid)).with(
        "confidence",
        Json::string(c.confidence.label()),
    ).with("offset", Json::whole(c.offset)).with("evidence", Json::string(c.evidence.as_str())).with(
        "lines",
        Json::Unsigned(c.lines as u64),
    )
}

/// What was found out about a permission, as a JSON value.
fn resolution_json(r: &Resolution) -> (j: Json)
    ensures
        j@ == resolution_value(r@),
{
    let ghost all = Seq::new(r@.candidates.len(), |i: int| candidate_value(r@.candidates[i]));
    let mut items = Items::new();
    let mut i: usize = 0;
    while i < r.candidates.len()
        invariant
            i <= r.candidates@.len(),
            all == Seq::new(r@.candidates.len(), |i: int| candidate_value(r@.candidates[i])),
            items@ == all.take(i as int),
        decreases r.candidates@.len() - i,
    {
        proof {
            assert(all.take(i + 1) =~= all.take(i as int).push(candidate_value(r@.candidates[i as int])));
        }
        items.item(candidate_json(&r.candidates[i]));
        i = i + 1;
    }
    proof {
        assert(all.take(i as int) =~= all);
    }
    Json::object().with("token", Json::string(r.token.as_str())).with(
        "table",
        Json::string(r.table.as_str()),
    ).with("issued_at", Json::whole_or_null(r.issued_at)).with("candidates", items.array())
}

/// The report on what was recovered from the journal.
pub open spec fn resolution_report(
    list: Seq<ResolutionView>,
    dates: Seq<Text>,
    written: nat,
    min: Confidence,
    json: bool,
    now: i64,
) -> ReportView {
    if json {
        ReportView::Document(resolution_document(list, written, min, now))
    } else {
        ReportView::Lines(resolution_lines(list, dates, written, min))
    }
}

/// The report on what was recovered from the journal, given the times of the
/// grants and the current time.
pub fn resolution_report_at(
    results: &Vec<Resolution>,
    dates: &Vec<String>,
    written: usize,
    min: Confidence,
    json: bool,
    now: i64,
) -> (r: Report)
    requires
        dates@.len() == results@.len(),
    ensures
        r@ == resolution_report(
            text::views(results@),
            text::views(dates@),
            written as nat,
            min,
            json,
            now,
        ),
{
    let ghost all = text::views(results@);
    let ghost times = text::views(dates@);
    if json {
        let ghost values = Seq::new(all.len(), |i: int| resolution_value(all[i]));
        let mut items = Items::new();
        let mut i: usize = 0;
        while i < results.len()
            invariant
                i <= results@.len(),
                all == text::views(results@),
                values == Seq::new(all.len(), |i: int| resolution_value(all[i])),
                items@ == values.take(i as int),
            decreases results@.len() - i,
        {
            proof {
                assert(values.take(i + 1) =~= values.take(i as int).push(
                    resolution_value(results@[i as int]@),
                ));
            }
            items.item(resolution_json(&results[i]));
            i = i + 1;
        }
        proof {
            assert(values.take(i as int) =~= values);
        }
        return Report::Document(
            Json::object().with("generated_at", Json::whole(now)).with(
                "written",
                Json::Unsigned(written as u64),
            ).with("min_confidence", Json::string(min.label())).with("resolutions", items.array()),
        );
    }
    if results.len() == 0 {
        return Report::single(
            "\n  ".to_owned().concat(bold("Nothing left to resolve.").as_str()).concat(
                "\n\n  Every granted permission already has a name.\n",
            ),
        );
    }
    let mut out = Lines::new();
    out.line("".to_owned());
    proof {
        assert(out@ =~= seq![""@]);
        assert(all.take(0) =~= Seq::empty());
    }
    let mut i: usize = 0;
    while i < results.len()
        invariant
            i <= results@.len(),
            dates@.len() == results@.len(),
            all == text::views(results@),
            times == text::views(dates@),
            out@ == with_resolutions(seq![""@], all.take(i as int), times),
        decreases results@.len() - i,
    {
        proof {
            assert(all.take(i + 1).drop_last() =~= all.take(i as int));
            assert(all.take(i + 1)[i as int] == results@[i as int]@);
        }
        add_resolution(&mut out, &results[i], dates[i].as_str());
        i = i + 1;
    }
    proof {
        assert(all.take(i as int) =~= all);
    }
    if written > 0 {
        out.line(
            "  ".to_owned().concat(green("✓").as_str()).concat(" ").concat(
                decimal(written as u64).as_str(),
            ).concat(" ").concat(plural(written, "attribution", "attributions").as_str()).concat(
                " written to the attribution map (",
            ).concat(min.label()).concat(" confidence or better)."),
        );
    } else {
        out.line(
            "  ".to_owned().concat(
                dimmed(
                    "Nothing written. Re-run with --write to persist the attributions above.",
                ).as_str(),
            ),
        );
    }
    out.line(
        "  ".to_owned().concat(
            dimmed(
                "These are correlations, not proof: a match means the process was logging at the moment the permission was filed.",
            ).as_str(),
        ).concat("\n"),
    );
    Report::Lines(out.list)
}

/// The times of the grants of a list of permissions.
pub open spec fn resolution_times(list: Seq<ResolutionView>) -> Seq<Option<i64>> {
    Seq::new(list.len(), |i: int| list[i].issued_at)
}

/// The report on what was recovered from the journal.
pub fn report_resolution(results: &Vec<Resolution>, written: usize, min: Confidence, json: bool) -> (r:
    Report)
    ensures
        exists|dates: Seq<Text>, now: i64|
            tell_times(resolution_times(text::views(results@)), dates) && r@
                == #[trigger] resolution_report(
                text::views(results@),
                dates,
                written as nat,
                min,
                json,
                now,
            ),
{
    let ghost all = text::views(results@);
    let mut times: Vec<Option<i64>> = Vec::new();
    let mut i: usize = 0;
    while i < results.len()
        invariant
            i <= results@.len(),
            all == text::views(results@),
            times@ == resolution_times(all).take(i as int),
        decreases results@.len() - i,
    {
        proof {
            assert(resolution_times(all).take(i + 1) =~= resolution_times(all).take(i as int).push(
                results@[i as int].issued_at,
            ));
        }
        times.push(results[i].issued_at);
        i = i + 1;
    }
    proof {
        assert(resolution_times(all).take(i as int) =~= resolution_times(all));
    }
    let dates = format_times(&times);
    let moment: i64 = now();
    resolution_report_at(results, &dates, written, min, json, moment)
}

// ---------------------------------------------------------------------------
// Sessions
// ---------------------------------------------------------------------------
/// A line below a session: a label in a column, and a dimmed value.
pub open spec fn session_field(label: Text, value: Text) -> Text {
    "      "@ + crate::format::padded_right(label, 9) + " "@ + style::in_dim(value)
}

/// Who is behind a session.
pub open spec fn session_owner(s: SessionView) -> Text {
    match s.owner {
        Some(identity) => style::in_bold(style::in_green(identity.label())),
        None => style::in_yellow("owner unresolved"@),
    }
}

/// The lines with those of the process behind a session added.
pub open spec fn with_owner(l: Seq<Text>, identity: IdentityView, unique_name: Text) -> Seq<Text> {
    let l = match identity.exe {
        Some(exe) => l.push(session_field("exe"@, exe)),
        None => l,
    };
    let l = match identity.cmdline {
        Some(cmdline) => l.push(session_field("cmdline"@, crate::format::truncated(cmdline, 78))),
        None => l,
    };
    match identity.pid {
        Some(pid) => l.push(
            session_field("pid"@, text::dec(pid as nat) + " · "@ + unique_name),
        ),
        None => l,
    }
}

/// The lines with those of a session added.
pub open spec fn with_session(l: Seq<Text>, s: SessionView) -> Seq<Text> {
    let l = l.push("    "@ + style::in_red("●"@) + " "@ + session_owner(s));
    let l = match s.owner {
        Some(identity) => with_owner(l, identity, s.unique_name),
        None => l,
    };
    l.push(session_field("session"@, s.path)).push(""@)
}

/// The lines with those of some sessions added.
pub open spec fn with_sessions(l: Seq<Text>, list: Seq<SessionView>) -> Seq<Text>
    decreases list.len(),
{
    if list.len() == 0 {
        l
    } else {
        with_session(with_sessions(l, list.drop_last()), list.last())
    }
}

/// The lines of the report on open sessions.
pub open spec fn session_lines(list: Seq<SessionView>) -> Seq<Text> {
    if list.len() == 0 {
        seq![
            "\n  "@ + style::in_bold("Nothing open."@)
                + "\n\n  No application currently holds an open desktop-portal session.\n"@,
        ]
    } else {
        let heading = "\n  "@ + style::in_bold("Open portal sessions"@) + "   "@ + style::in_dim(
            text::dec(list.len()) + " "@ + noun(list.len(), "session"@, "sessions"@),
        ) + "\n"@;
        with_sessions(seq![heading], list).push(
            "  "@ + style::in_bold(style::in_yellow("!"@))
                + " An open session is what capture runs on top of, not proof that capture is"@,
        ).push(
            "    happening this instant. It does mean the application can resume without"@,
        ).push("    any further prompt.\n"@)
    }
}

/// A process as a JSON value.
pub open spec fn identity_value(identity: IdentityView) -> JsonView {
    JsonView::Object(
        Map::empty().insert("pid"@, json::pid_view(identity.pid)).insert(
            "exe"@,
            json::text_view(identity.exe),
        ).insert("cmdline"@, json::text_view(identity.cmdline)).insert(
            "comm"@,
            json::text_view(identity.comm),
        ),
    )
}

/// A session as a JSON value.
pub open spec fn session_value(s: SessionView) -> JsonView {
    JsonView::Object(
        Map::empty().insert("path"@, JsonView::Str(s.path)).insert(
            "unique_name"@,
            JsonView::Str(s.unique_name),
        ).insert("token"@, JsonView::Str(s.token)).insert(
            "owner"@,
            match s.owner {
                Some(identity) => identity_value(identity),
                None => JsonView::Null,
            },
        ),
    )
}

/// The report on open sessions.
pub open spec fn session_report(list: Seq<SessionView>, json: bool, now: i64) -> ReportView {
    if json {
        ReportView::Document(
            JsonView::Object(
                Map::empty().insert("generated_at"@, json::int_view(now)).insert(
                    "sessions"@,
                    JsonView::Array(Seq::new(list.len(), |i: int| session_value(list[i]))),
                ),
            ),
        )
    } else {
        ReportView::Lines(session_lines(list))
    }
}

/// A line below a session.
fn session_line(label: &str, value: &str) -> (r: String)
    ensures
        r@ == session_field(label@, value@),
{
    "      ".to_owned().concat(pad_right(label, 9).as_str()).concat(" ").concat(
        dimmed(value).as_str(),
    )
}

/// Adds the lines of the process behind a session.
fn add_owner(out: &mut Lines, identity: &Identity, unique_name: &str)
    ensures
        final(out)@ == with_owner(old(out)@, identity@, unique_name@),
{
    if let Some(exe) = &identity.exe {
        out.line(session_line("exe", exe.as_str()));
    }
    if let Some(cmdline) = &identity.cmdline {
        out.line(session_line("cmdline", truncate(cmdline.as_str(), 78).as_str()));
    }
    if let Some(pid) = identity.pid {
        let value = decimal(pid as u64).concat(" · ").concat(unique_name);
        out.line(session_line("pid", value.as_str()));
    }
}

/// Adds the lines of a session.
fn add_session(out: &mut Lines, s: &Session)
    ensures
        final(out)@ == with_session(old(out)@, s@),
{
    let who = match &s.owner {
        Some(identity) => bold(green(identity.label().as_str()).as_str()),
        None => yellow("owner unresolved"),
    };
    out.line("    ".to_owned().concat(red("●").as_str()).concat(" ").concat(who.as_str()));
    if let Some(identity) = &s.owner {
        add_owner(out, identity, s.unique_name.as_str());
    }
    out.line(session_line("session", s.path.as_str()));
    out.line("".to_owned());
}

/// A process as a JSON value.
fn identity_json(identity: &Identity) -> (r: Json)
    ensures
        r@ == identity_value(identity@),
{
    Json::object().with("pid", Json::pid_or_null(identity.pid)).with(
        "exe",
        Json::text_or_null(&identity.exe),
    ).with("cmdline", Json::text_or_null(&identity.cmdline)).with(
        "comm",
        Json::text_or_null(&identity.comm),
    )
}

/// A session as a JSON value.
fn session_json(s: &Session) -> (r: Json)
    ensures
        r@ == session_value(s@),
{
    let owner = match &s.owner {
        Some(identity) => identity_json(identity),
        None => Json::Null,
    };
    Json::object().with("path", Json::string(s.path.as_str())).with(
        "unique_name",
        Json::string(s.unique_name.as_str()),
    ).with("token", Json::string(s.token.as_str())).with("owner", owner)
}

/// The report on open sessions, given the current time.
pub fn session_report_at(sessions: &Vec<Session>, json: bool, now: i64) -> (r: Report)
    ensures
        r@ == session_report(text::views(sessions@), json, now),
{
    let ghost all = text::views(sessions@);
    if json {
        let ghost values = Seq::new(all.len(), |i: int| session_value(all[i]));
        let mut items = Items::new();
        let mut i: usize = 0;
        while i < sessions.len()
            invariant
                i <= sessions@.len(),
                all == text::views(sessions@),
                values == Seq::new(all.len(), |i: int| session_value(all[i])),
                items@ == values.take(i as int),
            decreases sessions@.len() - i,
        {
            proof {
                assert(values.take(i + 1) =~= values.take(i as int).push(
                    session_value(sessions@[i as int]@),
                ));
            }
            items.item(session_json(&sessions[i]));
            i = i + 1;
        }
        proof {
            assert(values.take(i as int) =~= values);
        }
        return Report::Document(
            Json::object().with("generated_at", Json::whole(now)).with("sessions", items.array()),
        );
    }
    if sessions.len() == 0 {
        return Report::single(
            "\n  ".to_owned().concat(bold("Nothing open.").as_str()).concat(
                "\n\n  No application currently holds an open desktop-portal session.\n",
            ),
        );
    }
    let count = decimal(sessions.len() as u64).concat(" ").concat(
        plural(sessions.len(), "session", "sessions").as_str(),
    );
    let heading = "\n  ".to_owned().concat(bold("Open portal sessions").as_str()).concat(
        "   ",
    ).concat(dimmed(count.as_str()).as_str()).concat("\n");
    let ghost first = seq![heading@];
    let mut out = Lines::new();
    out.line(heading);
    proof {
        assert(out@ =~= first);
        assert(all.take(0) =~= Seq::empty());
    }
    let mut i: usize = 0;
    while i < sessions.len()
        invariant
            i <= sessions@.len(),
            all == text::views(sessions@),
            out@ == with_sessions(first, all.take(i as int)),
        decreases sessions@.len() - i,
    {
        proof {
            assert(all.take(i + 1).drop_last() =~= all.take(i as int));
            assert(all.take(i + 1).last() == sessions@[i as int]@);
        }
        add_session(&mut out, &sessions[i]);
        i = i + 1;
    }
    proof {
        assert(all.take(i as int) =~= all);
    }
    out.line(
        "  ".to_owned().concat(bold(yellow("!").as_str()).as_str()).concat(
            " An open session is what capture runs on top of, not proof that capture is",
        ),
    );
    out.line(
        "    happening this instant. It does mean the application can resume without".to_owned(),
    );
    out.line("    any further prompt.\n".to_owned());
    Report::Lines(out.list)
}

/// The report on open sessions.
pub fn report_sessions(sessions: &Vec<Session>, json: bool) -> (r: Report)
    ensures
        exists|now: i64| r@ == #[trigger] session_report(text::views(sessions@), json, now),
{
    let moment: i64 = now();
    session_report_at(sessions, json, moment)
}

/// The report on open sessions for programs holds no double.
pub proof fn law_sessions_are_plain(list: Seq<SessionView>, now: i64)
    ensures
        session_report(list, true, now) matches ReportView::Document(document) && json::plain(
            document,
        ),
{
    broadcast use crate::json::group_plain;

    let items = Seq::new(list.len(), |i: int| session_value(list[i]));
    json::lemma_plain_items(items);
}

/// The report on what was recovered from the journal holds no double.
pub proof fn law_resolutions_are_plain(
    list: Seq<ResolutionView>,
    written: nat,
    min: Confidence,
    now: i64,
)
    ensures
        json::plain(resolution_document(list, written, min, now)),
{
    broadcast use crate::json::group_plain;

    let items = Seq::new(list.len(), |i: int| resolution_value(list[i]));
    assert forall|i: int| 0 <= i < items.len() implies json::plain(#[trigger] items[i]) by {
        let candidates = list[i].candidates;
        json::lemma_plain_items(
            Seq::new(candidates.len(), |k: int| candidate_value(candidates[k])),
        );
    }
    json::lemma_plain_items(items);
}

// ---------------------------------------------------------------------------
// What the reports promise
// ---------------------------------------------------------------------------
/// How long ago something was: in days from one day on, in hours from one hour on,
/// in minutes from two minutes on, and before that just now. One of a kind is told
/// as one, and what lies ahead is said to.
pub proof fn law_how_long_ago(secs: int, n: nat)
    ensures
        secs < 0 ==> age(secs) == "dated in the future"@,
        0 <= secs < 120 ==> age(secs) == "just now"@,
        120 <= secs < 3600 && n * 60 <= secs < n * 60 + 60 ==> age(secs) == text::dec(n)
            + " minutes ago"@,
        3600 <= secs < 7200 ==> age(secs) == "1 hour ago"@,
        7200 <= secs < 86400 && n * 3600 <= secs < n * 3600 + 3600 ==> age(secs) == text::dec(n)
            + " hours ago"@,
        86400 <= secs < 172800 ==> age(secs) == "1 day ago"@,
        172800 <= secs && n * 86400 <= secs < n * 86400 + 86400 ==> age(secs) == text::dec(n)
            + " days ago"@,
{
}

/// The time of a grant is told by its date, and by how long ago it was in brackets.
pub proof fn law_the_time_of_a_grant(ts: i64, date: Text, now: i64)
    requires
        i64::MIN <= now - ts <= i64::MAX,
    ensures
        issued_text(ts, Some(date), now) == date + " ("@ + age(now - ts) + ")"@,
        issued_text(ts, None, now) == text::signed_dec(ts as int) + " ("@ + age(now - ts) + ")"@,
{
}

/// One is told apart from none and from many.
pub proof fn law_one_is_singular(n: nat, one: Text, many: Text)
    ensures
        n == 1 ==> noun(n, one, many) == one,
        n == 0 || n > 1 ==> noun(n, one, many) == many,
{
}

/// An offset is told with its sign and its size, in seconds.
pub proof fn law_offsets_have_signs(offset: i64)
    requires
        offset > i64::MIN,
    ensures
        offset >= 0 ==> offset_text(offset) == "+"@ + text::dec(offset as nat) + "s"@,
        offset < 0 ==> offset_text(offset) == "-"@ + text::dec((-offset) as nat) + "s"@,
{
}

/// The line of a candidate shows its name, the confidence in it, how far it was
/// from the grant, and its executable; the line below shows the evidence.
#[verifier::rlimit(50)]
pub proof fn law_what_is_shown_of_a_candidate(l: Seq<Text>, c: CandidateView)
    ensures
        ({
            let all = with_candidate(l, c);
            let line = all[l.len() as int];
            &&& l.is_prefix_of(all)
            &&& all.len() == l.len() + if c.evidence.len() > 0 {
                2int
            } else {
                1
            }
            &&& c.label.len() <= 16 ==> crate::split::occurs_in(line, c.label)
            &&& crate::split::occurs_in(
                line,
                match c.confidence {
                    Confidence::High => "high"@,
                    Confidence::Medium => "medium"@,
                    Confidence::Low => "low"@,
                },
            )
            &&& crate::split::occurs_in(line, offset_text(c.offset))
            &&& c.exe matches Some(exe) ==> crate::split::occurs_in(line, exe)
            &&& 0 < c.evidence.len() <= 84 ==> crate::split::occurs_in(
                all[(l.len() + 1) as int],
                c.evidence,
            )
        }),
{
    broadcast use crate::split::group_occurs;

    let all = with_candidate(l, c);
    assert(all.take(l.len() as int) =~= l);
    let name = crate::format::padded_right(crate::format::truncated(c.label, 16), 16);
    if c.label.len() <= 16 {
        assert(crate::split::occurs_in(name, c.label));
    }
    let level = crate::format::padded_right(journal::confidence_label(c.confidence), 7);
    assert(crate::split::occurs_in(level, journal::confidence_label(c.confidence)));
    let far = crate::format::padded_left(offset_text(c.offset), 4);
    assert(crate::split::occurs_in(far, offset_text(c.offset)));
}

/// The best three candidates are shown, and no more.
pub proof fn law_the_best_three_are_shown(list: Seq<CandidateView>, i: int)
    requires
        0 <= i < leading(list).len(),
    ensures
        leading(list).len() == if list.len() < 3 {
            list.len() as int
        } else {
            3
        },
        leading(list)[i] == list[i],
{
}

/// A place in the report where a permission stands: its token, its table, and the
/// time of its grant or that none is known. Below it stand its best candidates,
/// or why there are none.
pub open spec fn shows_resolution(lines: Seq<Text>, k: int, r: ResolutionView, date: Text) -> bool {
    &&& 0 <= k && k + 1 < lines.len()
    &&& crate::split::occurs_in(lines[k], r.token)
    &&& crate::split::occurs_in(lines[k], r.table)
    &&& r.issued_at is Some ==> crate::split::occurs_in(lines[k], date)
    &&& r.issued_at is None ==> crate::split::occurs_in(lines[k], "no timestamp recorded"@)
        && crate::split::occurs_in(
        lines[k + 1],
        "This table stores no grant time, so there is nothing to correlate against."@,
    )
    &&& r.issued_at is Some && r.candidates.len() == 0 ==> crate::split::occurs_in(
        lines[k + 1],
        "No process logged anything in that window. The journal may not reach back that far."@,
    )
    &&& r.issued_at is Some && r.candidates.len() > 0 ==> lines[k + 1] == candidate_line(
        r.candidates[0],
    )
}

/// Every permission that was looked into is shown, with its own time and its best
/// candidate first.
pub proof fn law_every_resolution_is_shown(
    list: Seq<ResolutionView>,
    dates: Seq<Text>,
    written: nat,
    min: Confidence,
    i: int,
)
    requires
        0 <= i < list.len(),
    ensures
        exists|k: int| #[trigger]
            shows_resolution(resolution_lines(list, dates, written, min), k, list[i], dates[i]),
{
    let body = with_resolutions(seq![""@], list, dates);
    let all = resolution_lines(list, dates, written, min);
    let k = lemma_resolutions_shown(seq![""@], list, dates, i);
    assert(forall|j: int| 0 <= j < body.len() ==> #[trigger] all[j] == body[j]);
    assert(shows_resolution(all, k, list[i], dates[i]));
}

proof fn lemma_resolutions_shown(
    l: Seq<Text>,
    list: Seq<ResolutionView>,
    dates: Seq<Text>,
    i: int,
) -> (k: int)
    ensures
        0 <= i < list.len() ==> shows_resolution(
            with_resolutions(l, list, dates),
            k,
            list[i],
            dates[i],
        ),
    decreases list.len(),
{
    if list.len() == 0 {
        0
    } else {
        let n = list.len() - 1;
        let before = with_resolutions(l, list.drop_last(), dates);
        let all = with_resolutions(l, list, dates);
        let k = lemma_resolutions_shown(l, list.drop_last(), dates, i);
        lemma_resolution_shown(before, list[n], dates[n]);
        if i == n {
            before.len() as int
        } else {
            k
        }
    }
}

#[verifier::rlimit(50)]
proof fn lemma_resolution_shown(l: Seq<Text>, r: ResolutionView, date: Text)
    ensures
        with_resolution(l, r, date).len() >= l.len(),
        forall|j: int| 0 <= j < l.len() ==> #[trigger] with_resolution(l, r, date)[j] == l[j],
        shows_resolution(with_resolution(l, r, date), l.len() as int, r, date),
{
    broadcast use crate::split::group_occurs;

    let shown = if r.issued_at is Some {
        date
    } else {
        "no timestamp recorded"@
    };
    let first = "  "@ + style::in_bold(r.token) + "   "@ + r.table + " · "@ + style::in_dim(shown);
    let head = l.push(first);
    let all = with_resolution(l, r, date);
    if r.issued_at is Some && r.candidates.len() > 0 {
        lemma_candidates_shown(head, leading(r.candidates));
        assert(all[l.len() as int] == head[l.len() as int]);
    }
    assert(all[l.len() as int] == first);
}

/// The lines before stay, and the first candidate comes right behind them.
proof fn lemma_candidates_shown(l: Seq<Text>, list: Seq<CandidateView>)
    ensures
        with_candidates(l, list).len() >= l.len() + list.len(),
        forall|j: int| 0 <= j < l.len() ==> #[trigger] with_candidates(l, list)[j] == l[j],
        list.len() > 0 ==> with_candidates(l, list)[l.len() as int] == candidate_line(list[0]),
    decreases list.len(),
{
    if list.len() > 0 {
        let before = with_candidates(l, list.drop_last());
        lemma_candidates_shown(l, list.drop_last());
        let all = with_candidates(l, list);
        assert(forall|j: int| 0 <= j < before.len() ==> #[trigger] all[j] == before[j]);
        if list.len() == 1 {
            assert(before == l);
        }
    }
}

/// What was written is told with its number and the confidence that was asked
/// for; and where nothing was written, that is said. Whatever was found, it is
/// said that it is no proof.
pub proof fn law_what_was_written_is_told(
    list: Seq<ResolutionView>,
    dates: Seq<Text>,
    written: nat,
    min: Confidence,
)
    requires
        list.len() > 0,
    ensures
        ({
            let all = resolution_lines(list, dates, written, min);
            let line = all[all.len() - 2];
            &&& written > 0 ==> crate::split::occurs_in(line, text::dec(written))
                && crate::split::occurs_in(
                line,
                match min {
                    Confidence::High => "high"@,
                    Confidence::Medium => "medium"@,
                    Confidence::Low => "low"@,
                },
            )
            &&& written == 0 ==> crate::split::occurs_in(
                line,
                "Nothing written. Re-run with --write to persist the attributions above."@,
            )
            &&& crate::split::occurs_in(
                all.last(),
                "These are correlations, not proof: a match means the process was logging at the moment the permission was filed."@,
            )
        }),
{
    broadcast use crate::split::group_occurs;

}

/// A place in the report where a session stands: who is behind it, or that nobody
/// is known to be; further down its path.
pub open spec fn shows_session(lines: Seq<Text>, k: int, s: SessionView) -> bool {
    &&& 0 <= k < lines.len()
    &&& s.owner matches Some(identity) ==> crate::split::occurs_in(lines[k], identity.label())
    &&& s.owner is None ==> crate::split::occurs_in(lines[k], "owner unresolved"@)
    &&& exists|p: int| k < p <= k + 4 && p < lines.len() && crate::split::occurs_in(
        #[trigger] lines[p],
        s.path,
    )
}

/// Every open session is shown, with whoever is behind it.
#[verifier::rlimit(50)]
pub proof fn law_every_open_session_is_shown(list: Seq<SessionView>, i: int)
    requires
        0 <= i < list.len(),
    ensures
        exists|k: int| #[trigger] shows_session(session_lines(list), k, list[i]),
        crate::split::occurs_in(session_lines(list)[0], text::dec(list.len())),
{
    broadcast use crate::split::group_occurs;

    let heading = "\n  "@ + style::in_bold("Open portal sessions"@) + "   "@ + style::in_dim(
        text::dec(list.len()) + " "@ + noun(list.len(), "session"@, "sessions"@),
    ) + "\n"@;
    let first = seq![heading];
    let body = with_sessions(first, list);
    let all = session_lines(list);
    let k = lemma_sessions_shown(first, list, i);
    assert(forall|j: int| 0 <= j < body.len() ==> #[trigger] all[j] == body[j]);
    lemma_session_stays(body, all, k, list[i]);
    assert(all[0] == first[0]);
}

/// What is shown stays shown with more lines behind it.
proof fn lemma_session_stays(before: Seq<Text>, after: Seq<Text>, k: int, s: SessionView)
    requires
        shows_session(before, k, s),
        before.len() <= after.len(),
        forall|j: int| 0 <= j < before.len() ==> #[trigger] after[j] == before[j],
    ensures
        shows_session(after, k, s),
{
    let p = choose|p: int|
        k < p <= k + 4 && p < before.len() && crate::split::occurs_in(#[trigger] before[p], s.path);
    assert(crate::split::occurs_in(after[p], s.path));
}

proof fn lemma_sessions_shown(l: Seq<Text>, list: Seq<SessionView>, i: int) -> (k: int)
    ensures
        with_sessions(l, list).len() >= l.len(),
        forall|j: int| 0 <= j < l.len() ==> #[trigger] with_sessions(l, list)[j] == l[j],
        0 <= i < list.len() ==> shows_session(with_sessions(l, list), k, list[i]),
    decreases list.len(),
{
    if list.len() == 0 {
        0
    } else {
        let n = list.len() - 1;
        let before = with_sessions(l, list.drop_last());
        let all = with_sessions(l, list);
        let k = lemma_sessions_shown(l, list.drop_last(), i);
        lemma_session_shown(before, list[n]);
        if i == n {
            before.len() as int
        } else {
            if 0 <= i < n {
                lemma_session_stays(before, all, k, list[i]);
            }
            k
        }
    }
}

proof fn lemma_session_shown(l: Seq<Text>, s: SessionView)
    ensures
        with_session(l, s).len() >= l.len(),
        forall|j: int| 0 <= j < l.len() ==> #[trigger] with_session(l, s)[j] == l[j],
        shows_session(with_session(l, s), l.len() as int, s),
{
    broadcast use crate::split::group_occurs;

    let all = with_session(l, s);
    let first = "    "@ + style::in_red("●"@) + " "@ + session_owner(s);
    assert(all[l.len() as int] == first);
    let p = all.len() - 2;
    assert(all[p] == session_field("session"@, s.path));
    assert(crate::split::occurs_in(all[p], s.path));
}

/// What is known of the process behind a session is shown: its executable, its
/// command line, and its number with the name of its connection.
pub proof fn law_what_is_shown_of_an_owner(l: Seq<Text>, identity: IdentityView, name: Text)
    ensures
        ({
            let all = with_owner(l, identity, name);
            let n = l.len() as int;
            let exe = if identity.exe is Some {
                1int
            } else {
                0
            };
            let cmdline = if identity.cmdline is Some {
                1int
            } else {
                0
            };
            let pid = if identity.pid is Some {
                1int
            } else {
                0
            };
            &&& l.is_prefix_of(all)
            &&& all.len() == n + exe + cmdline + pid
            &&& exe == 1 ==> crate::split::occurs_in(all[n], identity.exe->0)
            &&& cmdline == 1 && identity.cmdline->0.len() <= 78 ==> crate::split::occurs_in(
                all[n + exe],
                identity.cmdline->0,
            )
            &&& pid == 1 ==> crate::split::occurs_in(
                all[n + exe + cmdline],
                text::dec(identity.pid->0 as nat),
            ) && crate::split::occurs_in(all[n + exe + cmdline], name)
        }),
{
    broadcast use crate::split::group_occurs;

    let all = with_owner(l, identity, name);
    assert(all.take(l.len() as int) =~= l);
}

/// What a program reads of a session, field by field.
pub proof fn law_sessions_for_programs(s: SessionView)
    ensures
        ({
            let value = session_value(s);
            &&& value.field("path"@) == Some(JsonView::Str(s.path))
            &&& value.field("unique_name"@) == Some(JsonView::Str(s.unique_name))
            &&& value.field("token"@) == Some(JsonView::Str(s.token))
            &&& s.owner is None ==> value.field("owner"@) == Some(JsonView::Null)
            &&& s.owner matches Some(identity) ==> value.field("owner"@) == Some(
                identity_value(identity),
            )
        }),
{
    reveal_strlit("path");
    reveal_strlit("unique_name");
    reveal_strlit("token");
    reveal_strlit("owner");
    assert("path"@.len() == 4);
    assert("unique_name"@.len() == 11);
    assert("token"@.len() == 5);
    assert("owner"@.len() == 5);
    assert("token"@[0] == 't');
    assert("owner"@[0] == 'o');
}

/// What a program reads of a process, field by field.
pub proof fn law_processes_for_programs(identity: IdentityView)
    ensures
        ({
            let value = identity_value(identity);
            &&& value.field("pid"@) == Some(
                match identity.pid {
                    Some(pid) => JsonView::Unsigned(pid as u64),
                    None => JsonView::Null,
                },
            )
            &&& value.field("exe"@) == Some(
                match identity.exe {
                    Some(exe) => JsonView::Str(exe),
                    None => JsonView::Null,
                },
            )
            &&& value.field("cmdline"@) == Some(
                match identity.cmdline {
                    Some(cmdline) => JsonView::Str(cmdline),
                    None => JsonView::Null,
                },
            )
            &&& value.field("comm"@) == Some(
                match identity.comm {
                    Some(comm) => JsonView::Str(comm),
                    None => JsonView::Null,
                },
            )
        }),
{
    reveal_strlit("pid");
    reveal_strlit("exe");
    reveal_strlit("cmdline");
    reveal_strlit("comm");
    assert("pid"@.len() == 3);
    assert("exe"@.len() == 3);
    assert("cmdline"@.len() == 7);
    assert("comm"@.len() == 4);
    assert("pid"@[0] == 'p');
    assert("exe"@[0] == 'e');
}

/// A program reads every open session, in order.
pub proof fn law_every_session_for_programs(list: Seq<SessionView>, now: i64, i: int)
    ensures
        session_report(list, true, now) matches ReportView::Document(document) && {
            &&& document.field("generated_at"@) matches Some(time) && time.signed() == Some(now)
            &&& document.field("sessions"@) matches Some(JsonView::Array(values)) && values.len()
                == list.len() && (0 <= i < list.len() ==> values[i] == session_value(list[i]))
        },
        session_report(list, false, now) is Lines,
{
    reveal_strlit("generated_at");
    reveal_strlit("sessions");
    assert("generated_at"@.len() == 12);
    assert("sessions"@.len() == 8);
}

/// What a program reads of a candidate, field by field.
#[verifier::rlimit(50)]
pub proof fn law_candidates_for_programs(c: CandidateView)
    requires
        c.lines <= u64::MAX,
    ensures
        ({
            let value = candidate_value(c);
            &&& value.field("label"@) == Some(JsonView::Str(c.label))
            &&& value.field("exe"@) == Some(
                match c.exe {
                    Some(exe) => JsonView::Str(exe),
                    None => JsonView::Null,
                },
            )
            &&& value.field("pid"@) == Some(
                match c.pid {
                    Some(pid) => JsonView::Unsigned(pid as u64),
                    None => JsonView::Null,
                },
            )
            &&& value.field("confidence"@) == Some(
                JsonView::Str(
                    match c.confidence {
                        Confidence::High => "high"@,
                        Confidence::Medium => "medium"@,
                        Confidence::Low => "low"@,
                    },
                ),
            )
            &&& value.field("offset"@) matches Some(offset) && offset.signed() == Some(c.offset)
            &&& value.field("evidence"@) == Some(JsonView::Str(c.evidence))
            &&& value.field("lines"@) matches Some(lines) && lines.unsigned() matches Some(n) && n
                == c.lines
        }),
{
    reveal_strlit("label");
    reveal_strlit("exe");
    reveal_strlit("pid");
    reveal_strlit("confidence");
    reveal_strlit("offset");
    reveal_strlit("evidence");
    reveal_strlit("lines");
    assert("label"@.len() == 5);
    assert("exe"@.len() == 3);
    assert("pid"@.len() == 3);
    assert("confidence"@.len() == 10);
    assert("offset"@.len() == 6);
    assert("evidence"@.len() == 8);
    assert("lines"@.len() == 5);
    assert("label"@[1] == 'a');
    assert("lines"@[1] == 'i');
    assert("exe"@[0] == 'e');
    assert("pid"@[0] == 'p');
}

/// A program reads every permission that was looked into, with all of its
/// candidates, in order.
#[verifier::rlimit(50)]
pub proof fn law_every_resolution_for_programs(
    list: Seq<ResolutionView>,
    written: nat,
    min: Confidence,
    now: i64,
    i: int,
    k: int,
)
    requires
        written <= u64::MAX,
        0 <= i < list.len(),
        0 <= k < list[i].candidates.len(),
    ensures
        ({
            let document = resolution_document(list, written, min, now);
            let r = list[i];
            let value = resolution_value(r);
            &&& document.field("generated_at"@) matches Some(time) && time.signed() == Some(now)
            &&& document.field("written"@) matches Some(n) && n.unsigned() matches Some(n) && n
                == written
            &&& document.field("min_confidence"@) == Some(
                JsonView::Str(
                    match min {
                        Confidence::High => "high"@,
                        Confidence::Medium => "medium"@,
                        Confidence::Low => "low"@,
                    },
                ),
            )
            &&& document.field("resolutions"@) matches Some(JsonView::Array(values)) && values.len()
                == list.len() && values[i] == value
            &&& value.field("token"@) == Some(JsonView::Str(r.token))
            &&& value.field("table"@) == Some(JsonView::Str(r.table))
            &&& value.field("issued_at"@) matches Some(issued) && issued.signed() == r.issued_at
            &&& value.field("candidates"@) matches Some(JsonView::Array(found)) && found.len()
                == r.candidates.len() && found[k] == candidate_value(r.candidates[k])
        }),
{
    reveal_strlit("generated_at");
    reveal_strlit("written");
    reveal_strlit("min_confidence");
    reveal_strlit("resolutions");
    assert("generated_at"@.len() == 12);
    assert("written"@.len() == 7);
    assert("min_confidence"@.len() == 14);
    assert("resolutions"@.len() == 11);
    reveal_strlit("token");
    reveal_strlit("table");
    reveal_strlit("issued_at");
    reveal_strlit("candidates");
    assert("token"@.len() == 5);
    assert("table"@.len() == 5);
    assert("issued_at"@.len() == 9);
    assert("candidates"@.len() == 10);
    assert("token"@[1] == 'o');
    assert("table"@[1] == 'a');
}

/// The times in a report are those of the grants, each in its place.
pub proof fn law_each_grant_has_its_own_time(times: Seq<Option<i64>>, shown: Seq<Text>, i: int)
    requires
        tell_times(times, shown),
        0 <= i < times.len(),
    ensures
        times[i] matches Some(ts) ==> tells_time(ts, shown[i]),
        times[i] is None ==> shown[i].len() == 0,
{
    let time = times[i];
}

/// The time of a permission that was looked into is that of its grant.
pub proof fn law_times_of_resolutions(list: Seq<ResolutionView>, i: int)
    requires
        0 <= i < list.len(),
    ensures
        resolution_times(list).len() == list.len(),
        resolution_times(list)[i] == list[i].issued_at,
{
}

/// A told time begins with the date of the grant, laid out as year, month and day,
/// hour and minute, and goes on with how long ago it was; where the calendar does
/// not reach, it begins with the bare number.
pub proof fn law_a_told_time_begins_with_the_date(ts: i64, shown: Text)
    requires
        tells_time(ts, shown),
    ensures
        -377705023201 <= ts <= 253402207200 ==> exists|offset: i32|
            -93599 <= offset <= 93599 && (#[trigger] clock::laid_out(ts, offset, "%Y-%m-%d %H:%M"@)
                + " ("@).is_prefix_of(shown),
        !(-377705023201 <= ts <= 253402207200) ==> (text::signed_dec(ts as int) + " ("@).is_prefix_of(
            shown,
        ),
        shown.last() == ')',
{
    reveal_strlit(")");
    assert(")"@.len() == 1);
    let (date, now) = choose|date: Option<Text>, now: i64|
        clock::is_date(ts, clock::full_layout(), date) && shown == #[trigger] issued_text(
            ts,
            date,
            now,
        );
    let begin = clock::shown_date(ts, date) + " ("@;
    assert(shown.take(begin.len() as int) =~= begin);
    if date is Some {
        let offset = choose|offset: i32|
            clock::is_offset(offset as int) && date->0 == #[trigger] clock::laid_out(
                ts,
                offset,
                clock::full_layout(),
            ) && clock::gives_time(ts, offset, clock::full_layout(), date->0);
        assert((clock::laid_out(ts, offset, "%Y-%m-%d %H:%M"@) + " ("@).is_prefix_of(shown));
    }
}

/// A report for programs is a document, and one for people is lines.
pub proof fn law_reports_have_the_form_asked_for(
    list: Seq<ResolutionView>,
    dates: Seq<Text>,
    written: nat,
    min: Confidence,
    now: i64,
)
    ensures
        resolution_report(list, dates, written, min, true, now) == ReportView::Document(
            resolution_document(list, written, min, now),
        ),
        resolution_report(list, dates, written, min, false, now) == ReportView::Lines(
            resolution_lines(list, dates, written, min),
        ),
{
}

/// The stronger the confidence, the more it stands out: high is bold and green,
/// medium yellow, and low dimmed.
pub proof fn law_confidence_stands_out(confidence: Confidence)
    ensures
        match confidence {
            Confidence::High => "\x1b[1m"@.is_prefix_of(painted_confidence(confidence))
                && crate::split::occurs_in(painted_confidence(confidence), "\x1b[32m"@),
            Confidence::Medium => "\x1b[33m"@.is_prefix_of(painted_confidence(confidence)),
            Confidence::Low => "\x1b[2m"@.is_prefix_of(painted_confidence(confidence)),
        },
{
    broadcast use crate::split::group_occurs;

    let shown = painted_confidence(confidence);
    match confidence {
        Confidence::High => {
            assert(shown.take("\x1b[1m"@.len() as int) =~= "\x1b[1m"@);
        },
        Confidence::Medium => {
            assert(shown.take("\x1b[33m"@.len() as int) =~= "\x1b[33m"@);
        },
        Confidence::Low => {
            assert(shown.take("\x1b[2m"@.len() as int) =~= "\x1b[2m"@);
        },
    }
}

} // verus!
