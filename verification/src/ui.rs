//! What the terminal interface shows.
//!
//! A [`Screen`] says which lines stand where, and in which style; laying them
//! out in the terminal's cells is left to whoever draws it.
use vstd::prelude::*;
use crate::attrib::{IdentityView, RecordView};
use crate::clock::{self, short_stamp};
use crate::format::{pad_right, truncate};
use crate::history::{self, Revocation, RevocationView};
use crate::render::{self, format_issued};
use crate::risk::{self, lookup, Risk, TableInfo};
use crate::split::{self, join};
use crate::store::{self, Decision, Entry, EntryView};
use crate::text::{self, decimal, Text};
use crate::tui::{self, App, AppView, Confirm, ConfirmView, Tab};
use crate::watch::EventView;

verus! {

// ---------------------------------------------------------------------------
// Styled text
// ---------------------------------------------------------------------------
/// A colour of the terminal.
#[derive(Debug, Clone, Copy, PartialEq, Eq, Structural)]
pub enum Color {
    Black,
    Red,
    Green,
    Yellow,
    Blue,
    Cyan,
    DarkGray,
}

/// How a text is shown.
#[derive(Debug, Clone, Copy, PartialEq, Eq, Structural)]
pub struct Style {
    pub fg: Option<Color>,
    pub bg: Option<Color>,
    pub bold: bool,
    pub dim: bool,
}

/// As the terminal shows it by itself.
pub open spec fn plain() -> Style {
    Style { fg: None, bg: None, bold: false, dim: false }
}

/// In bold.
pub open spec fn strong() -> Style {
    Style { bold: true, ..plain() }
}

/// Dimmed.
pub open spec fn faint() -> Style {
    Style { dim: true, ..plain() }
}

/// In a colour.
pub open spec fn colored(color: Color) -> Style {
    Style { fg: Some(color), ..plain() }
}

/// In a colour, and bold.
pub open spec fn strongly_colored(color: Color) -> Style {
    Style { fg: Some(color), bold: true, ..plain() }
}

/// In a colour, and dimmed.
pub open spec fn faintly_colored(color: Color) -> Style {
    Style { fg: Some(color), dim: true, ..plain() }
}

impl Style {
    /// As the terminal shows it by itself.
    pub fn plain() -> (r: Style)
        ensures
            r == plain(),
    {
        Style { fg: None, bg: None, bold: false, dim: false }
    }

    /// In bold.
    pub fn strong() -> (r: Style)
        ensures
            r == strong(),
    {
        Style { fg: None, bg: None, bold: true, dim: false }
    }

    /// Dimmed.
    pub fn faint() -> (r: Style)
        ensures
            r == faint(),
    {
        Style { fg: None, bg: None, bold: false, dim: true }
    }

    /// In a colour.
    pub fn colored(color: Color) -> (r: Style)
        ensures
            r == colored(color),
    {
        Style { fg: Some(color), bg: None, bold: false, dim: false }
    }

    /// In a colour, and bold.
    pub fn strongly_colored(color: Color) -> (r: Style)
        ensures
            r == strongly_colored(color),
    {
        Style { fg: Some(color), bg: None, bold: true, dim: false }
    }

    /// In a colour, and dimmed.
    pub fn faintly_colored(color: Color) -> (r: Style)
        ensures
            r == faintly_colored(color),
    {
        Style { fg: Some(color), bg: None, bold: false, dim: true }
    }
}

/// A text in one style.
#[derive(Debug)]
pub struct Span {
    pub text: String,
    pub style: Style,
}

/// A text in one style, as the contracts see it.
pub struct SpanView {
    pub text: Text,
    pub style: Style,
}

impl View for Span {
    type V = SpanView;

    open spec fn view(&self) -> SpanView {
        SpanView { text: self.text@, style: self.style }
    }
}

/// A text in a style.
pub open spec fn styled(text: Text, style: Style) -> SpanView {
    SpanView { text, style }
}

/// A line as the contracts see it.
pub type LineView = Seq<SpanView>;

/// A line: texts one after the other.
#[derive(Debug)]
pub struct Line {
    pub spans: Vec<Span>,
}

impl View for Line {
    type V = LineView;

    open spec fn view(&self) -> LineView {
        text::views(self.spans@)
    }
}

impl Line {
    /// A line without texts.
    pub fn new() -> (r: Line)
        ensures
            r@ == Seq::<SpanView>::empty(),
    {
        broadcast use crate::text::group_views;

        let spans: Vec<Span> = Vec::new();
        Line { spans }
    }

    /// The line with one text more.
    pub fn with(self, text: String, style: Style) -> (r: Line)
        ensures
            r@ == self@.push(styled(text@, style)),
    {
        broadcast use crate::text::group_views;

        let mut spans = self.spans;
        spans.push(Span { text, style });
        Line { spans }
    }

    /// The line with one fixed text more.
    pub fn and(self, text: &str, style: Style) -> (r: Line)
        ensures
            r@ == self@.push(styled(text@, style)),
    {
        self.with(text.to_owned(), style)
    }
}

/// A line of a single text.
pub open spec fn one(text: Text, style: Style) -> LineView {
    seq![styled(text, style)]
}

/// A line without anything on it.
pub open spec fn blank() -> LineView {
    Seq::empty()
}

/// A line of a single text.
fn single(text: &str, style: Style) -> (r: Line)
    ensures
        r@ == one(text@, style),
{
    Line::new().and(text, style)
}

/// Lines in the making.
pub struct Page {
    pub lines: Vec<Line>,
}

impl View for Page {
    type V = Seq<LineView>;

    open spec fn view(&self) -> Seq<LineView> {
        text::views(self.lines@)
    }
}

impl Page {
    /// No lines yet.
    pub fn new() -> (r: Self)
        ensures
            r@ == Seq::<LineView>::empty(),
    {
        broadcast use crate::text::group_views;

        let lines: Vec<Line> = Vec::new();
        Page { lines }
    }

    /// Adds a line.
    pub fn line(&mut self, line: Line)
        ensures
            final(self)@ == old(self)@.push(line@),
    {
        broadcast use crate::text::group_views;

        self.lines.push(line);
    }
}

/// The colour of a risk.
pub open spec fn color_of(risk: Risk) -> Color {
    match risk {
        Risk::High => Color::Red,
        Risk::Medium => Color::Yellow,
        Risk::Low => Color::Blue,
        Risk::Info => Color::DarkGray,
    }
}

/// The colour of a risk.
pub fn risk_color(risk: Risk) -> (r: Color)
    ensures
        r == color_of(risk),
{
    match risk {
        Risk::High => Color::Red,
        Risk::Medium => Color::Yellow,
        Risk::Low => Color::Blue,
        Risk::Info => Color::DarkGray,
    }
}

// ---------------------------------------------------------------------------
// The head and the foot
// ---------------------------------------------------------------------------
/// How the name of a view is shown: the one that is open stands out.
pub open spec fn tab_style(app: AppView, tab: Tab) -> Style {
    if app.tab == tab {
        Style { fg: Some(Color::Black), bg: Some(Color::Cyan), bold: true, dim: false }
    } else {
        faint()
    }
}

/// The names of the views. The key of each stands in square brackets and how
/// much it holds in round ones, as "3 revoked" reads like a number of
/// revocations.
pub open spec fn title_of(app: AppView) -> LineView {
    seq![
        styled(" wayward "@, strong()),
        styled(
            " [1] permissions ("@ + text::dec(app.entries.len()) + ") "@,
            tab_style(app, Tab::Permisos),
        ),
        styled(" "@, plain()),
        styled(" [2] activity "@, tab_style(app, Tab::Actividad)),
        styled(" "@, plain()),
        styled(
            " [3] revoked ("@ + text::dec(app.history.len()) + ") "@,
            tab_style(app, Tab::Revocados),
        ),
    ]
}

/// The state of the monitor. That it listens is said only once the bus has
/// confirmed it.
pub open spec fn monitor_state(app: AppView) -> SpanView {
    if app.monitor_error is Some {
        styled("monitor down "@, strongly_colored(Color::Red))
    } else if app.monitoring {
        styled("● listening "@, colored(Color::Green))
    } else {
        styled("connecting… "@, faint())
    }
}

/// What stands at the foot: what has just happened, or else the keys.
pub open spec fn footer_of(app: AppView) -> LineView {
    match app.status {
        Some(status) => one(" "@ + status, colored(Color::Cyan)),
        None => one(" j/k move · r revoke · R reload · tab switch view · q quit"@, faint()),
    }
}

/// How the name of a view is shown.
fn style_for(app: &App, tab: Tab) -> (r: Style)
    ensures
        r == tab_style(app@, tab),
{
    if app.tab == tab {
        Style { fg: Some(Color::Black), bg: Some(Color::Cyan), bold: true, dim: false }
    } else {
        Style::faint()
    }
}

/// The names of the views.
fn title(app: &App) -> (r: Line)
    ensures
        r@ == title_of(app@),
{
    let permissions = " [1] permissions (".to_owned().concat(
        decimal(app.entries.len() as u64).as_str(),
    ).concat(") ");
    let revoked = " [3] revoked (".to_owned().concat(
        decimal(app.history.revocations.len() as u64).as_str(),
    ).concat(") ");
    Line::new().and(" wayward ", Style::strong()).with(
        permissions,
        style_for(app, Tab::Permisos),
    ).and(" ", Style::plain()).and(" [2] activity ", style_for(app, Tab::Actividad)).and(
        " ",
        Style::plain(),
    ).with(revoked, style_for(app, Tab::Revocados))
}

/// The state of the monitor.
fn monitor_span(app: &App) -> (r: Span)
    ensures
        r@ == monitor_state(app@),
{
    if app.monitor_error.is_some() {
        Span { text: "monitor down ".to_owned(), style: Style::strongly_colored(Color::Red) }
    } else if app.monitoring {
        Span { text: "● listening ".to_owned(), style: Style::colored(Color::Green) }
    } else {
        Span { text: "connecting… ".to_owned(), style: Style::faint() }
    }
}

/// What stands at the foot.
fn footer(app: &App) -> (r: Line)
    ensures
        r@ == footer_of(app@),
{
    match &app.status {
        Some(status) => Line::new().with(
            " ".to_owned().concat(status.as_str()),
            Style::colored(Color::Cyan),
        ),
        None => single(
            " j/k move · r revoke · R reload · tab switch view · q quit",
            Style::faint(),
        ),
    }
}

// ---------------------------------------------------------------------------
// Permissions
// ---------------------------------------------------------------------------
/// Who holds a permission, as the list says it.
pub open spec fn holder(app: AppView, e: EntryView) -> SpanView {
    match store::decided(e.permissions) {
        Decision::Denied => styled("denied"@, faintly_colored(Color::Green)),
        Decision::Unknown => styled("non-standard value"@, faint()),
        Decision::Granted => if app.cache.contains_key(e.id) {
            styled(app.cache[e.id].identity.label(), colored(Color::Green))
        } else if store::anonymous(e.permissions) {
            styled("unattributed"@, colored(Color::Yellow))
        } else {
            styled(
                split::joined(store::identified(e.permissions), ", "@),
                colored(Color::Green),
            )
        },
    }
}

/// The line of a row in the list. Its dot is lit only where something is
/// granted, and a star marks what was attributed since the interface was
/// opened.
pub open spec fn item_of(app: AppView, e: EntryView) -> LineView {
    let info = risk::info(e.table);
    seq![
        styled(
            "● "@,
            if store::decided(e.permissions) == Decision::Granted {
                colored(color_of(info.risk))
            } else {
                faint()
            },
        ),
        styled(crate::format::padded_right(info.display, 11), strong()),
        styled(
            crate::format::padded_right(crate::format::truncated(e.id, 13), 14) + " "@,
            faint(),
        ),
        if app.fresh.contains(e.id) {
            styled("✦ "@, strongly_colored(Color::Cyan))
        } else {
            styled("  "@, plain())
        },
        holder(app, e),
    ]
}

/// The lines of the rows in the list, or of a list without rows.
pub open spec fn items_of(app: AppView) -> Seq<LineView> {
    if app.entries.len() == 0 {
        seq![blank(), one("  No desktop-portal permission is granted."@, faint())]
    } else {
        Seq::new(app.entries.len(), |i: int| item_of(app, app.entries[i]))
    }
}

/// The line of the list that stands out: none where there are no rows.
pub open spec fn highlighted(app: AppView) -> Option<usize> {
    if app.entries.len() == 0 {
        None
    } else {
        Some(app.selected as usize)
    }
}

/// A label in a column, and a value.
pub open spec fn field_of(label: Text, value: Text) -> LineView {
    seq![
        styled(crate::format::padded_right(label, 11) + " "@, faint()),
        styled(value, plain()),
    ]
}

/// The lines with those of some details added.
pub open spec fn with_fields(l: Seq<LineView>, details: Seq<(Text, Text)>) -> Seq<LineView>
    decreases details.len(),
{
    if details.len() == 0 {
        l
    } else {
        with_fields(l, details.drop_last()).push(field_of(details.last().0, details.last().1))
    }
}

/// The line on what kind of permission the rows of a table are.
pub open spec fn kind_of(info: risk::TableInfoView) -> LineView {
    seq![
        styled(info.display + " "@, strong()),
        styled(risk::risk_label(info.risk) + " risk"@, strongly_colored(color_of(info.risk))),
    ]
}

/// The lines on what a permission is, with the time of its grant.
pub open spec fn with_description(l: Seq<LineView>, e: EntryView, date: Text) -> Seq<LineView> {
    let info = risk::info(e.table);
    let l = l.push(one(e.id, strong())).push(blank()).push(kind_of(info)).push(
        one(info.grants, faint()),
    ).push(blank());
    let l = if e.issued_at is Some {
        l.push(field_of("granted"@, date))
    } else {
        l
    };
    with_fields(l, e.details).push(blank())
}

/// The lines with those on an attribution added.
pub open spec fn with_attribution(l: Seq<LineView>, record: RecordView) -> Seq<LineView> {
    let l = l.push(one("Attributed to"@, strong())).push(
        one(record.identity.label(), strongly_colored(Color::Green)),
    );
    let l = match record.identity.exe {
        Some(exe) => l.push(one(exe, faint())),
        None => l,
    };
    match record.identity.cmdline {
        Some(cmdline) => l.push(blank()).push(one(cmdline, faint())),
        None => l,
    }
}

/// The lines with those on who holds a permission added.
pub open spec fn with_holder(l: Seq<LineView>, app: AppView, e: EntryView) -> Seq<LineView> {
    if store::decided(e.permissions) == Decision::Denied {
        l.push(one("Denied"@, strongly_colored(Color::Green))).push(
            one(
                "The permission store files rejections too. This one exposes nothing: while it stays here the request is denied without asking again. Revoking it makes the prompt come back."@,
                faint(),
            ),
        )
    } else if app.cache.contains_key(e.id) {
        with_attribution(l, app.cache[e.id])
    } else if store::anonymous(e.permissions) {
        l.push(one("Unattributed"@, strongly_colored(Color::Yellow))).push(
            one(
                "The portal derives the application identifier from the sandbox. Outside Flatpak or Snap nothing records who asked for the permission: only this token, which lets it resume access without ever asking again."@,
                faint(),
            ),
        ).push(blank()).push(
            one(
                "Leave wayward open and use the application again: the moment it asks for the permission it will show up here with a name."@,
                faint(),
            ),
        )
    } else {
        l.push(one("Applications"@, strong())).push(
            one(split::joined(store::identified(e.permissions), ", "@), plain()),
        )
    }
}

/// The lines on the row under the cursor.
pub open spec fn details_of(app: AppView, date: Text) -> Seq<LineView> {
    match app.current() {
        Some(e) => with_holder(with_description(Seq::empty(), e, date), app, e),
        None => seq![blank()],
    }
}

/// The line of a row in the list.
fn item(app: &App, e: &Entry) -> (r: Line)
    ensures
        r@ == item_of(app@, e@),
{
    let info = lookup(e.table.as_str());
    let decision = e.decision();
    let dot = match decision {
        Decision::Granted => Style::colored(risk_color(info.risk)),
        _ => Style::faint(),
    };
    let id = pad_right(truncate(e.id.as_str(), 13).as_str(), 14).concat(" ");
    let line = Line::new().and("● ", dot).with(pad_right(info.display, 11), Style::strong()).with(
        id,
        Style::faint(),
    );
    let line = match app.fresh.get(e.id.as_str()) {
        Some(_) => line.and("✦ ", Style::strongly_colored(Color::Cyan)),
        None => line.and("  ", Style::plain()),
    };
    match decision {
        Decision::Denied => line.and("denied", Style::faintly_colored(Color::Green)),
        Decision::Unknown => line.and("non-standard value", Style::faint()),
        Decision::Granted => match app.cache.get(e.id.as_str()) {
            Some(record) => line.with(record.identity.label(), Style::colored(Color::Green)),
            None => if e.unattributed() {
                line.and("unattributed", Style::colored(Color::Yellow))
            } else {
                line.with(join(&e.apps(), ", "), Style::colored(Color::Green))
            },
        },
    }
}

/// The lines of the rows in the list, or of a list without rows.
fn items(app: &App) -> (r: Vec<Line>)
    ensures
        text::views(r@) == items_of(app@),
{
    let ghost all = items_of(app@);
    let mut out = Page::new();
    if app.entries.len() == 0 {
        out.line(Line::new());
        out.line(single("  No desktop-portal permission is granted.", Style::faint()));
        return out.lines;
    }
    let mut i: usize = 0;
    while i < app.entries.len()
        invariant
            i <= app.entries@.len(),
            app.entries@.len() > 0,
            all == items_of(app@),
            out@ == all.take(i as int),
        decreases app.entries@.len() - i,
    {
        proof {
            assert(all.take(i + 1) =~= all.take(i as int).push(item_of(app@, app.entries@[i as int]@)));
        }
        out.line(item(app, &app.entries[i]));
        i = i + 1;
    }
    proof {
        assert(all.take(i as int) =~= all);
    }
    out.lines
}

/// A label in a column, and a value.
fn field(label: &str, value: &str) -> (r: Line)
    ensures
        r@ == field_of(label@, value@),
{
    Line::new().with(pad_right(label, 11).concat(" "), Style::faint()).and(value, Style::plain())
}

/// The line on what kind of permission the rows of a table are.
fn kind_line(info: &TableInfo) -> (r: Line)
    ensures
        r@ == kind_of(info@),
{
    Line::new().with(info.display.to_owned().concat(" "), Style::strong()).with(
        info.risk.label().to_owned().concat(" risk"),
        Style::strongly_colored(risk_color(info.risk)),
    )
}

/// Adds the lines on what a permission is.
fn add_description(out: &mut Page, e: &Entry, date: &str)
    ensures
        final(out)@ == with_description(old(out)@, e@, date@),
{
    let info = lookup(e.table.as_str());
    out.line(single(e.id.as_str(), Style::strong()));
    out.line(Line::new());
    out.line(kind_line(&info));
    out.line(single(info.grants, Style::faint()));
    out.line(Line::new());
    if e.issued_at.is_some() {
        out.line(field("granted", date));
    }
    let ghost before = out@;
    let ghost all = e@.details;
    let mut i: usize = 0;
    proof {
        assert(all.take(0) =~= Seq::empty());
    }
    while i < e.details.len()
        invariant
            i <= e.details@.len(),
            all == e@.details,
            out@ == with_fields(before, all.take(i as int)),
        decreases e.details@.len() - i,
    {
        proof {
            assert(all.take(i + 1).drop_last() =~= all.take(i as int));
            assert(all.take(i + 1).last() == e.details@[i as int]@);
        }
        out.line(field(e.details[i].0.as_str(), e.details[i].1.as_str()));
        i = i + 1;
    }
    proof {
        assert(all.take(i as int) =~= all);
    }
    out.line(Line::new());
}

/// Adds the lines on who holds a permission.
fn add_holder(out: &mut Page, app: &App, e: &Entry)
    ensures
        final(out)@ == with_holder(old(out)@, app@, e@),
{
    if e.decision() == Decision::Denied {
        out.line(single("Denied", Style::strongly_colored(Color::Green)));
        out.line(
            single(
                "The permission store files rejections too. This one exposes nothing: while it stays here the request is denied without asking again. Revoking it makes the prompt come back.",
                Style::faint(),
            ),
        );
        return;
    }
    match app.cache.get(e.id.as_str()) {
        Some(record) => {
            out.line(single("Attributed to", Style::strong()));
            out.line(
                single(
                    record.identity.label().as_str(),
                    Style::strongly_colored(Color::Green),
                ),
            );
            if let Some(exe) = &record.identity.exe {
                out.line(single(exe.as_str(), Style::faint()));
            }
            if let Some(cmdline) = &record.identity.cmdline {
                out.line(Line::new());
                out.line(single(cmdline.as_str(), Style::faint()));
            }
        },
        None => if e.unattributed() {
            out.line(single("Unattributed", Style::strongly_colored(Color::Yellow)));
            out.line(
                single(
                    "The portal derives the application identifier from the sandbox. Outside Flatpak or Snap nothing records who asked for the permission: only this token, which lets it resume access without ever asking again.",
                    Style::faint(),
                ),
            );
            out.line(Line::new());
            out.line(
                single(
                    "Leave wayward open and use the application again: the moment it asks for the permission it will show up here with a name.",
                    Style::faint(),
                ),
            );
        } else {
            out.line(single("Applications", Style::strong()));
            out.line(single(join(&e.apps(), ", ").as_str(), Style::plain()));
        },
    }
}

/// The lines on the row under the cursor, given the time of its grant.
pub fn detail_lines_at(app: &App, date: &str) -> (r: Vec<Line>)
    ensures
        text::views(r@) == details_of(app@, date@),
{
    let mut out = Page::new();
    match app.current() {
        Some(e) => {
            add_description(&mut out, e, date);
            add_holder(&mut out, app, e);
        },
        None => {
            out.line(Line::new());
        },
    }
    out.lines
}

/// The time of the grant of the row under the cursor, where it is known.
pub open spec fn tells_current_time(app: AppView, date: Text) -> bool {
    match app.current() {
        Some(e) => match e.issued_at {
            Some(ts) => render::tells_time(ts, date),
            None => date.len() == 0,
        },
        None => date.len() == 0,
    }
}

/// The time of the grant of the row under the cursor, where it is known.
fn current_time(app: &App) -> (r: String)
    ensures
        tells_current_time(app@, r@),
{
    match app.current() {
        Some(e) => match e.issued_at {
            Some(ts) => format_issued(ts),
            None => String::new(),
        },
        None => String::new(),
    }
}

/// The lines on the row under the cursor.
pub fn detail_lines(app: &App) -> (r: Vec<Line>)
    ensures
        exists|date: Text|
            tells_current_time(app@, date) && text::views(r@) == #[trigger] details_of(app@, date),
{
    let date = current_time(app);
    detail_lines_at(app, date.as_str())
}

// ---------------------------------------------------------------------------
// Activity
// ---------------------------------------------------------------------------
/// How many lines fit between the borders of a panel of some height.
pub open spec fn fitting(height: u16) -> nat {
    if height > 2 {
        (height - 2) as nat
    } else {
        0
    }
}

/// The line of an activity.
pub open spec fn activity_line(a: tui::ActivityView) -> LineView {
    let (marker, style) = if a.grant {
        ("⚑ "@, strongly_colored(Color::Yellow))
    } else {
        ("  "@, plain())
    };
    seq![
        styled(a.time + " "@, faint()),
        styled(marker, style),
        styled(
            crate::format::padded_right(crate::format::truncated(a.app, 19), 20),
            strong(),
        ),
        styled(a.detail, style),
    ]
}

/// The lines of the last activities that fit.
pub open spec fn activity_lines(log: Seq<tui::ActivityView>, visible: nat) -> Seq<LineView> {
    let skipped = if log.len() > visible {
        (log.len() - visible) as nat
    } else {
        0
    };
    Seq::new((log.len() - skipped) as nat, |i: int| activity_line(log[skipped + i]))
}

/// What the view on activity shows: why the monitor is down, that nothing has
/// happened yet, or what has happened last.
pub open spec fn activity_panel(app: AppView, height: u16) -> Seq<LineView> {
    if app.monitor_error is Some {
        seq![
            one("The bus monitor failed to start"@, strongly_colored(Color::Red)),
            blank(),
            one(app.monitor_error->0, plain()),
        ]
    } else if app.activity.len() == 0 {
        seq![
            blank(),
            one("  Listening. Nothing has happened yet."@, faint()),
            blank(),
            one("  Share your screen in any application and it will show up here,"@, faint()),
            one("  along with the name of the process that asked for it."@, faint()),
        ]
    } else {
        activity_lines(app.activity, fitting(height))
    }
}

/// How many lines fit between the borders of a panel.
fn room(height: u16) -> (r: usize)
    ensures
        r == fitting(height),
{
    if height > 2 {
        (height - 2) as usize
    } else {
        0
    }
}

/// What the view on activity shows in a panel of some height.
pub fn activity_view(app: &App, height: u16) -> (r: Vec<Line>)
    ensures
        text::views(r@) == activity_panel(app@, height),
{
    let mut out = Page::new();
    if let Some(error) = &app.monitor_error {
        out.line(
            single("The bus monitor failed to start", Style::strongly_colored(Color::Red)),
        );
        out.line(Line::new());
        out.line(single(error.as_str(), Style::plain()));
        return out.lines;
    }
    let n = app.activity.len();
    if n == 0 {
        out.line(Line::new());
        out.line(single("  Listening. Nothing has happened yet.", Style::faint()));
        out.line(Line::new());
        out.line(
            single(
                "  Share your screen in any application and it will show up here,",
                Style::faint(),
            ),
        );
        out.line(
            single("  along with the name of the process that asked for it.", Style::faint()),
        );
        return out.lines;
    }
    let visible = room(height);
    let skipped: usize = if n > visible {
        n - visible
    } else {
        0
    };
    let ghost log = app@.activity;
    let ghost all = activity_lines(log, visible as nat);
    let mut i: usize = skipped;
    proof {
        assert(all.take(0) =~= Seq::empty());
    }
    while i < n
        invariant
            skipped <= i <= n,
            n == app.activity@.len(),
            log == app@.activity,
            skipped == if log.len() > visible {
                log.len() - visible
            } else {
                0
            },
            all == activity_lines(log, visible as nat),
            out@ == all.take(i - skipped),
        decreases n - i,
    {
        let activity = &app.activity[i];
        let (marker, style) = if activity.grant {
            ("⚑ ", Style::strongly_colored(Color::Yellow))
        } else {
            ("  ", Style::plain())
        };
        let name = pad_right(truncate(activity.app.as_str(), 19).as_str(), 20);
        let line = Line::new().with(
            activity.time.clone().concat(" "),
            Style::faint(),
        ).and(marker, style).with(name, Style::strong()).and(activity.detail.as_str(), style);
        proof {
            assert(line@ == activity_line(log[i as int]));
            assert(all.take(i + 1 - skipped) =~= all.take(i - skipped).push(line@));
        }
        out.line(line);
        i = i + 1;
    }
    proof {
        assert(all.take(n - skipped) =~= all);
    }
    out.lines
}

// ---------------------------------------------------------------------------
// Revocations
// ---------------------------------------------------------------------------
/// A further line of a revocation.
pub open spec fn indented(text: Text) -> LineView {
    seq![styled("               "@, plain()), styled(text, faint())]
}

/// The first line of a revocation: its date, whom the permission belonged to,
/// and its table.
pub open spec fn heading_of(r: RevocationView, stamp: Text) -> LineView {
    seq![
        styled(stamp, faint()),
        styled("  "@, plain()),
        former_holder(r),
        styled("  "@, plain()),
        styled(r.table, faint()),
    ]
}

/// Details in a row: label and value, with a dot between each two.
pub open spec fn detail_texts(details: Seq<(Text, Text)>) -> Seq<Text> {
    Seq::new(details.len(), |i: int| details[i].0 + " "@ + details[i].1)
}

/// Whom a revoked permission belonged to.
pub open spec fn former_holder(r: RevocationView) -> SpanView {
    match r.app {
        Some(app) => styled(app, strongly_colored(Color::Green)),
        None => styled("unattributed"@, colored(Color::Yellow)),
    }
}

/// The lines with those of a revocation added, given its date.
pub open spec fn with_revocation(l: Seq<LineView>, r: RevocationView, stamp: Text) -> Seq<LineView> {
    let l = l.push(heading_of(r, stamp)).push(indented(r.token));
    let l = match r.exe {
        Some(exe) => l.push(indented(exe)),
        None => l,
    };
    let l = if r.details.len() > 0 {
        l.push(
            indented(
                crate::format::truncated(split::joined(detail_texts(r.details), " · "@), 60),
            ),
        )
    } else {
        l
    };
    l.push(blank())
}

/// The lines with those of some revocations added.
pub open spec fn with_revocations(l: Seq<LineView>, list: Seq<RevocationView>, stamps: Seq<Text>) -> Seq<LineView>
    decreases list.len(),
{
    if list.len() == 0 {
        l
    } else {
        let i = list.len() - 1;
        with_revocation(with_revocations(l, list.drop_last(), stamps), list[i], stamps[i])
    }
}

/// At most `n` of some lines.
pub open spec fn at_most(lines: Seq<LineView>, n: nat) -> Seq<LineView> {
    if lines.len() > n {
        lines.take(n as int)
    } else {
        lines
    }
}

/// What the view on revocations shows, given the date of each, the latest
/// first. It is the only view on what is there no more.
pub open spec fn revoked_panel(log: Seq<RevocationView>, stamps: Seq<Text>, height: u16) -> Seq<LineView> {
    if log.len() == 0 {
        seq![
            blank(),
            one("  Nothing revoked yet."@, faint()),
            blank(),
            one("  Revoking a permission deletes it from the store for good — neither"@, faint()),
            one("  the portal nor the system remembers it existed. Whatever you revoke"@, faint()),
            one("  from here is kept in this list, with whoever it belonged to."@, faint()),
        ]
    } else {
        at_most(
            with_revocations(Seq::empty(), history::latest_first(log), stamps),
            fitting(height),
        )
    }
}

/// Details in a row.
fn detail_row(details: &Vec<(String, String)>) -> (r: String)
    ensures
        r@ == split::joined(detail_texts(text::views(details@)), " · "@),
{
    broadcast use crate::text::group_views;

    let ghost all = detail_texts(text::views(details@));
    let mut parts: Vec<String> = Vec::new();
    let mut i: usize = 0;
    proof {
        assert(all.take(0) =~= Seq::empty());
    }
    while i < details.len()
        invariant
            i <= details@.len(),
            all == detail_texts(text::views(details@)),
            text::views(parts@) == all.take(i as int),
        decreases details@.len() - i,
    {
        let part = details[i].0.clone().concat(" ").concat(details[i].1.as_str());
        proof {
            assert(all.take(i + 1) =~= all.take(i as int).push(part@));
        }
        parts.push(part);
        i = i + 1;
    }
    proof {
        assert(all.take(i as int) =~= all);
    }
    join(&parts, " · ")
}

/// A further line of a revocation.
fn indented_line(text: &str) -> (r: Line)
    ensures
        r@ == indented(text@),
{
    Line::new().and("               ", Style::plain()).and(text, Style::faint())
}

/// The first line of a revocation.
fn heading(r: &Revocation, stamp: &str) -> (line: Line)
    ensures
        line@ == heading_of(r@, stamp@),
{
    let line = Line::new().and(stamp, Style::faint()).and("  ", Style::plain());
    let line = match &r.app {
        Some(app) => line.and(app.as_str(), Style::strongly_colored(Color::Green)),
        None => line.and("unattributed", Style::colored(Color::Yellow)),
    };
    line.and("  ", Style::plain()).and(r.table.as_str(), Style::faint())
}

/// Adds the lines of a revocation.
fn add_revocation(out: &mut Page, r: &Revocation, stamp: &str)
    ensures
        final(out)@ == with_revocation(old(out)@, r@, stamp@),
{
    out.line(heading(r, stamp));
    out.line(indented_line(r.token.as_str()));
    if let Some(exe) = &r.exe {
        out.line(indented_line(exe.as_str()));
    }
    if r.details.len() > 0 {
        let row = truncate(detail_row(&r.details).as_str(), 60);
        out.line(indented_line(row.as_str()));
    }
    out.line(Line::new());
}

/// What the view on revocations shows in a panel of some height, given the
/// date of each revocation, the latest first.
pub fn revoked_view_at(app: &App, stamps: &Vec<String>, height: u16) -> (r: Vec<Line>)
    requires
        stamps@.len() == app.history.revocations@.len(),
    ensures
        text::views(r@) == revoked_panel(app@.history, text::views(stamps@), height),
{
    broadcast use crate::text::group_views;

    let mut out = Page::new();
    let ghost log = app@.history;
    let ghost dates = text::views(stamps@);
    if app.history.revocations.len() == 0 {
        out.line(Line::new());
        out.line(single("  Nothing revoked yet.", Style::faint()));
        out.line(Line::new());
        out.line(
            single(
                "  Revoking a permission deletes it from the store for good — neither",
                Style::faint(),
            ),
        );
        out.line(
            single(
                "  the portal nor the system remembers it existed. Whatever you revoke",
                Style::faint(),
            ),
        );
        out.line(
            single(
                "  from here is kept in this list, with whoever it belonged to.",
                Style::faint(),
            ),
        );
        return out.lines;
    }
    let list = app.history.newest_first();
    let ghost all = text::views(list@);
    proof {
        history::law_latest_first(log);
        assert(all.take(0) =~= Seq::empty());
    }
    let mut i: usize = 0;
    while i < list.len()
        invariant
            i <= list@.len(),
            list@.len() == stamps@.len(),
            all == text::views(list@),
            dates == text::views(stamps@),
            out@ == with_revocations(Seq::empty(), all.take(i as int), dates),
        decreases list@.len() - i,
    {
        proof {
            assert(all.take(i + 1).drop_last() =~= all.take(i as int));
            assert(all.take(i + 1)[i as int] == list@[i as int]@);
        }
        add_revocation(&mut out, list[i], stamps[i].as_str());
        i = i + 1;
    }
    proof {
        assert(all.take(i as int) =~= all);
    }
    let visible = room(height);
    let mut lines = out.lines;
    let ghost whole = text::views(lines@);
    lines.truncate(visible);
    proof {
        assert(text::views(lines@) =~= at_most(whole, visible as nat));
    }
    lines
}

/// The dates of some revocations.
pub open spec fn tell_dates(list: Seq<RevocationView>, stamps: Seq<Text>) -> bool {
    &&& stamps.len() == list.len()
    &&& forall|i: int|
        0 <= i < list.len() ==> clock::stamps((#[trigger] list[i]).revoked_at, stamps[i])
}

/// The dates of the revocations, the latest first.
fn revocation_dates(app: &App) -> (r: Vec<String>)
    ensures
        tell_dates(history::latest_first(app@.history), text::views(r@)),
        r@.len() == app.history.revocations@.len(),
{
    let list = app.history.newest_first();
    let ghost all = text::views(list@);
    let mut out: Vec<String> = Vec::new();
    let mut i: usize = 0;
    while i < list.len()
        invariant
            i <= list@.len(),
            all == text::views(list@),
            out@.len() == i,
            forall|k: int|
                0 <= k < i ==> clock::stamps(
                    (#[trigger] all[k]).revoked_at,
                    text::views(out@)[k],
                ),
        decreases list@.len() - i,
    {
        out.push(short_stamp(list[i].revoked_at));
        i = i + 1;
    }
    proof {
        history::law_latest_first(app@.history);
    }
    out
}

// ---------------------------------------------------------------------------
// The dialog
// ---------------------------------------------------------------------------
/// What the dialog asks.
pub open spec fn dialog_of(confirm: ConfirmView) -> Seq<LineView> {
    seq![
        blank(),
        one("  Revoke the "@ + confirm.table + " permission"@, strong()),
        one("  "@ + confirm.token, faint()),
        blank(),
        one("  The application will ask for it again next time it"@, plain()),
        one("  needs it."@, plain()),
        blank(),
        one("  y confirm · any other key cancels"@, colored(Color::Yellow)),
    ]
}

/// What the dialog asks.
pub fn dialog(confirm: &Confirm) -> (r: Vec<Line>)
    ensures
        text::views(r@) == dialog_of(confirm@),
{
    let question = "  Revoke the ".to_owned().concat(confirm.table.as_str()).concat(" permission");
    let token = "  ".to_owned().concat(confirm.token.as_str());
    let mut out = Page::new();
    out.line(Line::new());
    out.line(single(question.as_str(), Style::strong()));
    out.line(single(token.as_str(), Style::faint()));
    out.line(Line::new());
    out.line(single("  The application will ask for it again next time it", Style::plain()));
    out.line(single("  needs it.", Style::plain()));
    out.line(Line::new());
    out.line(single("  y confirm · any other key cancels", Style::colored(Color::Yellow)));
    out.lines
}

// ---------------------------------------------------------------------------
// The screen
// ---------------------------------------------------------------------------
/// What stands between the head and the foot.
pub enum Body {
    /// The list, with the line that the cursor stands on, and the details of
    /// its row.
    Permissions { items: Vec<Line>, selected: Option<usize>, details: Vec<Line> },
    Activity(Vec<Line>),
    Revoked(Vec<Line>),
}

/// What stands between the head and the foot, as the contracts see it.
pub enum BodyView {
    Permissions { items: Seq<LineView>, selected: Option<usize>, details: Seq<LineView> },
    Activity(Seq<LineView>),
    Revoked(Seq<LineView>),
}

impl View for Body {
    type V = BodyView;

    open spec fn view(&self) -> BodyView {
        match self {
            Body::Permissions { items, selected, details } => BodyView::Permissions {
                items: text::views(items@),
                selected: *selected,
                details: text::views(details@),
            },
            Body::Activity(lines) => BodyView::Activity(text::views(lines@)),
            Body::Revoked(lines) => BodyView::Revoked(text::views(lines@)),
        }
    }
}

/// What the terminal shows.
pub struct Screen {
    pub title: Line,
    pub monitor: Span,
    pub body: Body,
    pub footer: Line,
    /// What stands in front of everything else.
    pub dialog: Option<Vec<Line>>,
}

/// What the terminal shows, as the contracts see it.
pub struct ScreenView {
    pub title: LineView,
    pub monitor: SpanView,
    pub body: BodyView,
    pub footer: LineView,
    pub dialog: Option<Seq<LineView>>,
}

impl View for Screen {
    type V = ScreenView;

    open spec fn view(&self) -> ScreenView {
        ScreenView {
            title: self.title@,
            monitor: self.monitor@,
            body: self.body@,
            footer: self.footer@,
            dialog: match self.dialog {
                Some(lines) => Some(text::views(lines@)),
                None => None,
            },
        }
    }
}

/// What the terminal shows in a body of some height, given the time of the
/// current row's grant and the dates of the revocations.
pub open spec fn screen_of(app: AppView, date: Text, stamps: Seq<Text>, height: u16) -> ScreenView {
    ScreenView {
        title: title_of(app),
        monitor: monitor_state(app),
        body: match app.tab {
            Tab::Permisos => BodyView::Permissions {
                items: items_of(app),
                selected: highlighted(app),
                details: details_of(app, date),
            },
            Tab::Actividad => BodyView::Activity(activity_panel(app, height)),
            Tab::Revocados => BodyView::Revoked(revoked_panel(app.history, stamps, height)),
        },
        footer: footer_of(app),
        dialog: match app.confirm {
            Some(confirm) => Some(dialog_of(confirm)),
            None => None,
        },
    }
}

/// What the terminal shows in a body of some height, given the time of the
/// current row's grant and the dates of the revocations.
pub fn draw_at(app: &App, date: &str, stamps: &Vec<String>, height: u16) -> (r: Screen)
    requires
        stamps@.len() == app.history.revocations@.len(),
    ensures
        r@ == screen_of(app@, date@, text::views(stamps@), height),
{
    let body = match app.tab {
        Tab::Permisos => Body::Permissions {
            items: items(app),
            selected: if app.entries.len() == 0 {
                None
            } else {
                Some(app.selected)
            },
            details: detail_lines_at(app, date),
        },
        Tab::Actividad => Body::Activity(activity_view(app, height)),
        Tab::Revocados => Body::Revoked(revoked_view_at(app, stamps, height)),
    };
    let dialog = match &app.confirm {
        Some(confirm) => Some(dialog(confirm)),
        None => None,
    };
    Screen { title: title(app), monitor: monitor_span(app), body, footer: footer(app), dialog }
}

/// What the terminal shows in a body of some height.
pub fn draw(app: &App, height: u16) -> (r: Screen)
    ensures
        exists|date: Text, stamps: Seq<Text>|
            tells_current_time(app@, date) && tell_dates(
                history::latest_first(app@.history),
                stamps,
            ) && r@ == #[trigger] screen_of(app@, date, stamps, height),
{
    let date = current_time(app);
    let stamps = revocation_dates(app);
    draw_at(app, date.as_str(), &stamps, height)
}

/// A permission that is granted to nobody knows whom reads "unattributed" in
/// the list, and one that is attributed reads the name of whoever holds it.
pub proof fn law_attribution_replaces_the_warning(app: AppView, e: EntryView)
    requires
        store::decided(e.permissions) == Decision::Granted,
        store::anonymous(e.permissions),
    ensures
        !app.cache.contains_key(e.id) ==> item_of(app, e).last().text == "unattributed"@,
        app.cache.contains_key(e.id) ==> item_of(app, e).last().text
            == app.cache[e.id].identity.label(),
{
}

/// The moment a grant is seen, the row of its token reads the name of whoever
/// asked, with a star that marks it as new.
pub proof fn law_a_grant_shows_at_once(
    app: AppView,
    e: EntryView,
    identity: IdentityView,
    table: Text,
    clock: Text,
    now: i64,
)
    requires
        store::decided(e.permissions) == Decision::Granted,
    ensures
        ({
            let event = EventView::Grant { identity, token: e.id, table };
            let shown = item_of(app.after_event(event, clock, now), e);
            &&& shown.last().text == identity.label()
            &&& shown[3] == styled("✦ "@, strongly_colored(Color::Cyan))
        }),
{
}

/// The screen says that the monitor listens only where the bus has confirmed
/// it and the monitor is up.
pub proof fn law_listening_is_shown_when_confirmed(app: AppView)
    ensures
        monitor_state(app) == styled("● listening "@, colored(Color::Green)) <==> app.monitoring
            && app.monitor_error is None,
{
    reveal_strlit("monitor down ");
    reveal_strlit("● listening ");
    reveal_strlit("connecting… ");
    assert("monitor down "@[0] != "● listening "@[0]);
    assert("connecting… "@[0] != "● listening "@[0]);
}

/// A refusal lights no dot: only what is granted shows the colour of its risk.
pub proof fn law_refusals_light_no_dot(app: AppView, e: EntryView)
    requires
        store::decided(e.permissions) != Decision::Granted,
    ensures
        item_of(app, e)[0] == styled("● "@, faint()),
{
}

/// The view on activity never shows more lines than fit, and shows the last
/// ones.
pub proof fn law_the_last_activity_is_shown(log: Seq<tui::ActivityView>, visible: nat)
    ensures
        activity_lines(log, visible).len() <= visible,
        log.len() > 0 && visible > 0 ==> activity_lines(log, visible).last() == activity_line(
            log.last(),
        ),
{
}

// ---------------------------------------------------------------------------
// What the screen promises
// ---------------------------------------------------------------------------
/// The head says how many permissions and how many revocations there are, and only
/// the view that is open stands out.
pub proof fn law_the_head_counts(app: AppView)
    ensures
        ({
            let title = title_of(app);
            &&& title.len() == 6
            &&& title[1].text == " [1] permissions ("@ + text::dec(app.entries.len()) + ") "@
            &&& title[5].text == " [3] revoked ("@ + text::dec(app.history.len()) + ") "@
            &&& title[1].style.bold <==> app.tab == Tab::Permisos
            &&& title[3].style.bold <==> app.tab == Tab::Actividad
            &&& title[5].style.bold <==> app.tab == Tab::Revocados
            &&& title[1].style.bg is Some <==> app.tab == Tab::Permisos
            &&& title[3].style.bg is Some <==> app.tab == Tab::Actividad
            &&& title[5].style.bg is Some <==> app.tab == Tab::Revocados
        }),
{
}

/// What is said of the monitor: that it is down where it failed, whatever it said
/// before; that it listens where the bus has confirmed it; and else that it is
/// connecting.
pub proof fn law_what_is_said_of_the_monitor(app: AppView)
    ensures
        app.monitor_error is Some ==> monitor_state(app).text == "monitor down "@ && monitor_state(
            app,
        ).style.fg == Some(Color::Red),
        app.monitor_error is None && app.monitoring ==> monitor_state(app).text == "● listening "@,
        app.monitor_error is None && !app.monitoring ==> monitor_state(app).text == "connecting… "@,
{
}

/// What has just happened is said at the foot, and else the keys.
pub proof fn law_what_is_said_at_the_foot(app: AppView)
    ensures
        footer_of(app).len() == 1,
        app.status matches Some(status) ==> footer_of(app)[0].text == " "@ + status,
        app.status is None ==> footer_of(app)[0].text
            == " j/k move · r revoke · R reload · tab switch view · q quit"@,
{
}

/// The line of a row. The dot has the colour of the risk exactly where something
/// is granted; then come the name of the table, the token, a star where the token
/// was attributed since the interface was opened, and who holds it.
#[verifier::rlimit(50)]
pub proof fn law_the_line_of_a_row(app: AppView, e: EntryView)
    ensures
        ({
            let line = item_of(app, e);
            let granted = store::decided(e.permissions) == Decision::Granted;
            &&& line.len() == 5
            &&& granted ==> line[0].style.fg == Some(
                match risk::info(e.table).risk {
                    Risk::High => Color::Red,
                    Risk::Medium => Color::Yellow,
                    Risk::Low => Color::Blue,
                    Risk::Info => Color::DarkGray,
                },
            )
            &&& !granted ==> line[0].style.fg is None
            &&& risk::info(e.table).display.is_prefix_of(line[1].text)
            &&& e.id.len() <= 13 ==> e.id.is_prefix_of(line[2].text)
            &&& e.id.len() > 13 ==> e.id.take(12).is_prefix_of(line[2].text)
            &&& app.fresh.contains(e.id) ==> line[3].text == "✦ "@
            &&& !app.fresh.contains(e.id) ==> line[3].text == "  "@
            &&& store::decided(e.permissions) == Decision::Denied ==> line[4].text == "denied"@
            &&& store::decided(e.permissions) == Decision::Unknown ==> line[4].text
                == "non-standard value"@
            &&& granted && app.cache.contains_key(e.id) ==> line[4].text
                == app.cache[e.id].identity.label()
            &&& granted && !app.cache.contains_key(e.id) && (forall|a: Text| #[trigger]
                e.permissions.contains_key(a) ==> a.len() == 0) ==> line[4].text == "unattributed"@
                && line[4].style.fg == Some(Color::Yellow)
            &&& granted && !app.cache.contains_key(e.id) && (exists|a: Text| #[trigger]
                e.permissions.contains_key(a) && a.len() > 0) ==> line[4].text == split::joined(
                store::identified(e.permissions),
                ", "@,
            )
        }),
{
    let line = item_of(app, e);
    let shown = risk::info(e.table).display;
    crate::format::law_padding_keeps_the_text(shown, 11);
    let short = crate::format::truncated(e.id, 13);
    crate::format::law_padding_keeps_the_text(short, 14);
    let padded = crate::format::padded_right(short, 14);
    let token = line[2].text;
    assert(token == padded + " "@);
    assert(padded.take(short.len() as int) == short);
    if e.id.len() <= 13 {
        assert(token.take(e.id.len() as int) =~= padded.take(e.id.len() as int));
    } else {
        crate::format::law_cutting_marks_the_cut(e.id, 13);
        assert(token.take(12) =~= short.take(12));
        assert(short.take(12) =~= e.id.take(12));
    }
}

/// There is a line for every row, in the order of the list, and the cursor stands
/// on the line of its row.
pub proof fn law_a_line_for_every_row(app: AppView, i: int)
    requires
        0 <= i < app.entries.len(),
        app.selected < app.entries.len(),
        app.entries.len() <= usize::MAX,
    ensures
        items_of(app).len() == app.entries.len(),
        items_of(app)[i] == item_of(app, app.entries[i]),
        highlighted(app) matches Some(at) && at == app.selected,
{
}

/// The lines on the row under the cursor. Its token comes first, then what kind of
/// permission it is, with its risk, and what it grants; then its time, where one
/// is known, and each of its details.
#[verifier::rlimit(50)]
pub proof fn law_what_is_shown_of_the_current_row(app: AppView, date: Text, i: int)
    requires
        app.selected < app.entries.len(),
    ensures
        ({
            let e = app.entries[app.selected as int];
            let lines = details_of(app, date);
            let time = if e.issued_at is Some {
                1int
            } else {
                0
            };
            &&& lines.len() > 6 + time + e.details.len()
            &&& lines[0].len() == 1 && lines[0][0].text == e.id
            &&& lines[2].len() == 2 && lines[2][0].text == risk::info(e.table).display + " "@
            &&& lines[2][1].text == risk::risk_label(risk::info(e.table).risk) + " risk"@
            &&& lines[3].len() == 1 && lines[3][0].text == risk::info(e.table).grants
            &&& time == 1 ==> lines[5].len() == 2 && lines[5][1].text == date
            &&& 0 <= i < e.details.len() ==> lines[5 + time + i].len() == 2 && e.details[i].0.is_prefix_of(
                lines[5 + time + i][0].text,
            ) && lines[5 + time + i][1].text == e.details[i].1
        }),
{
    let e = app.entries[app.selected as int];
    let info = risk::info(e.table);
    let head = Seq::<LineView>::empty().push(one(e.id, strong())).push(blank()).push(kind_of(info)).push(
        one(info.grants, faint()),
    ).push(blank());
    let timed = if e.issued_at is Some {
        head.push(field_of("granted"@, date))
    } else {
        head
    };
    lemma_fields(timed, e.details, i);
    let described = with_description(Seq::empty(), e, date);
    assert(described == with_fields(timed, e.details).push(blank()));
    lemma_holder_behind(described, app, e);
    let lines = details_of(app, date);
    assert(forall|k: int| 0 <= k < described.len() ==> #[trigger] lines[k] == described[k]);
    if 0 <= i < e.details.len() {
        let label = e.details[i].0;
        crate::format::law_padding_keeps_the_text(label, 11);
        let padded = crate::format::padded_right(label, 11);
        assert((padded + " "@).take(label.len() as int) =~= padded.take(label.len() as int));
    }
}

/// The lines of the details, behind those before.
proof fn lemma_fields(l: Seq<LineView>, details: Seq<(Text, Text)>, i: int)
    ensures
        with_fields(l, details).len() == l.len() + details.len(),
        forall|k: int| 0 <= k < l.len() ==> #[trigger] with_fields(l, details)[k] == l[k],
        0 <= i < details.len() ==> with_fields(l, details)[l.len() + i] == field_of(
            details[i].0,
            details[i].1,
        ),
    decreases details.len(),
{
    if details.len() > 0 {
        lemma_fields(l, details.drop_last(), i);
    }
}

/// The lines before those on the holder stay.
proof fn lemma_holder_behind(l: Seq<LineView>, app: AppView, e: EntryView)
    ensures
        with_holder(l, app, e).len() >= l.len() + 2,
        forall|k: int| 0 <= k < l.len() ==> #[trigger] with_holder(l, app, e)[k] == l[k],
{
}

/// Who holds the row under the cursor: a refusal is called one; else whoever its
/// token is attributed to is named, with executable and command line where they
/// are known; else it is said to be unattributed, or its applications are named.
pub proof fn law_what_is_shown_of_the_holder(l: Seq<LineView>, app: AppView, e: EntryView)
    ensures
        ({
            let all = with_holder(l, app, e);
            let n = l.len() as int;
            let denied = store::decided(e.permissions) == Decision::Denied;
            let known = app.cache.contains_key(e.id);
            let nameless = forall|a: Text| #[trigger]
                e.permissions.contains_key(a) ==> a.len() == 0;
            &&& denied ==> all[n][0].text == "Denied"@
            &&& !denied && known ==> {
                let identity = app.cache[e.id].identity;
                &&& all[n][0].text == "Attributed to"@
                &&& all[n + 1][0].text == identity.label()
                &&& identity.exe matches Some(exe) ==> all[n + 2][0].text == exe
                &&& identity.cmdline matches Some(cmdline) ==> all.last()[0].text == cmdline
            }
            &&& !denied && !known && nameless ==> all[n][0].text == "Unattributed"@
            &&& !denied && !known && !nameless ==> all[n][0].text == "Applications"@ && all[n
                + 1][0].text == split::joined(store::identified(e.permissions), ", "@)
        }),
{
}

/// A line of activity shows its time, its process and what it did, and a flag
/// where it is a grant.
pub proof fn law_the_line_of_an_activity(a: tui::ActivityView)
    ensures
        ({
            let line = activity_line(a);
            &&& line.len() == 4
            &&& line[0].text == a.time + " "@
            &&& a.grant ==> line[1].text == "⚑ "@ && line[3].style.fg == Some(Color::Yellow)
            &&& !a.grant ==> line[1].text == "  "@ && line[3].style.fg is None
            &&& a.app.len() <= 19 ==> a.app.is_prefix_of(line[2].text)
            &&& line[3].text == a.detail
        }),
{
    let short = crate::format::truncated(a.app, 19);
    crate::format::law_padding_keeps_the_text(short, 20);
}

/// The latest activities are shown, as many as fit, from the older to the newer.
pub proof fn law_which_activities_are_shown(log: Seq<tui::ActivityView>, visible: nat, i: int)
    requires
        0 <= i < activity_lines(log, visible).len(),
    ensures
        activity_lines(log, visible).len() == if log.len() < visible {
            log.len()
        } else {
            visible
        },
        activity_lines(log, visible)[i] == activity_line(
            log[log.len() - activity_lines(log, visible).len() + i],
        ),
{
}

/// Where the monitor failed, its own words are shown instead of any activity; a
/// panel has room for two lines less than its height.
pub proof fn law_what_the_activity_view_shows(app: AppView, height: u16)
    ensures
        app.monitor_error matches Some(error) ==> activity_panel(app, height).len() == 3
            && activity_panel(app, height)[2].len() == 1 && activity_panel(app, height)[2][0].text
            == error,
        app.monitor_error is None && app.activity.len() > 0 && height >= 2 ==> activity_panel(
            app,
            height,
        ) == activity_lines(app.activity, (height - 2) as nat),
        app.monitor_error is None && app.activity.len() == 0 ==> activity_panel(app, height)[1][0].text
            == "  Listening. Nothing has happened yet."@,
{
}

/// What is shown of a revocation: its date, whom the permission belonged to, its
/// table and its token, and its executable where one was known.
pub proof fn law_what_is_shown_of_a_revocation(l: Seq<LineView>, r: RevocationView, stamp: Text)
    ensures
        ({
            let all = with_revocation(l, r, stamp);
            let n = l.len() as int;
            &&& all.len() >= n + 3
            &&& forall|k: int| 0 <= k < n ==> #[trigger] all[k] == l[k]
            &&& all[n][0].text == stamp
            &&& r.app matches Some(app) ==> all[n][2].text == app
            &&& r.app is None ==> all[n][2].text == "unattributed"@
            &&& all[n][4].text == r.table
            &&& all[n + 1][1].text == r.token
            &&& r.exe matches Some(exe) ==> all[n + 2][1].text == exe
            &&& r.details.len() == 1 && r.details[0].0.len() + r.details[0].1.len() < 60
                ==> all[all.len() - 2][1].text == r.details[0].0 + " "@ + r.details[0].1
            &&& all.len() == n + 3 + (if r.exe is Some {
                1int
            } else {
                0
            }) + (if r.details.len() > 0 {
                1int
            } else {
                0
            })
        }),
{
    reveal_strlit(" ");
    assert(" "@.len() == 1);
    if r.details.len() == 1 {
        assert(detail_texts(r.details).len() == 1);
        assert(detail_texts(r.details)[0] == r.details[0].0 + " "@ + r.details[0].1);
    }
}

/// Every revocation is shown, from the latest on, each with its own date, as far
/// as there is room.
pub proof fn law_every_revocation_is_shown(
    list: Seq<RevocationView>,
    stamps: Seq<Text>,
    i: int,
) -> (k: int)
    requires
        0 <= i < list.len(),
        stamps.len() == list.len(),
    ensures
        ({
            let all = with_revocations(Seq::empty(), list, stamps);
            &&& 0 <= k && k + 1 < all.len()
            &&& all[k][0].text == stamps[i]
            &&& all[k][4].text == list[i].table
            &&& all[k + 1][1].text == list[i].token
            &&& i == 0 ==> k == 0
        }),
    decreases list.len(),
{
    let n = list.len() - 1;
    let before = with_revocations(Seq::empty(), list.drop_last(), stamps);
    law_what_is_shown_of_a_revocation(before, list[n], stamps[n]);
    if i == n {
        if n == 0 {
            assert(before == Seq::<LineView>::empty());
        }
        before.len() as int
    } else {
        lemma_revocations_stamps(list.drop_last(), stamps, stamps.drop_last());
        law_every_revocation_is_shown(list.drop_last(), stamps.drop_last(), i)
    }
}

/// Only the dates of the revocations count.
proof fn lemma_revocations_stamps(list: Seq<RevocationView>, a: Seq<Text>, b: Seq<Text>)
    requires
        list.len() <= a.len(),
        list.len() <= b.len(),
        forall|k: int| 0 <= k < list.len() ==> a[k] == b[k],
    ensures
        with_revocations(Seq::empty(), list, a) == with_revocations(Seq::empty(), list, b),
    decreases list.len(),
{
    if list.len() > 0 {
        lemma_revocations_stamps(list.drop_last(), a, b);
    }
}

/// The view on revocations shows the log from the latest on, cut off where the
/// panel ends.
pub proof fn law_what_the_log_view_shows(log: Seq<RevocationView>, stamps: Seq<Text>, height: u16)
    requires
        log.len() > 0,
        height >= 2,
    ensures
        ({
            let whole = with_revocations(Seq::empty(), history::latest_first(log), stamps);
            let shown = revoked_panel(log, stamps, height);
            &&& shown.is_prefix_of(whole)
            &&& shown.len() == if whole.len() < height - 2 {
                whole.len() as int
            } else {
                height - 2
            }
        }),
        revoked_panel(Seq::empty(), stamps, height)[1][0].text == "  Nothing revoked yet."@,
{
    let whole = with_revocations(Seq::empty(), history::latest_first(log), stamps);
    let shown = revoked_panel(log, stamps, height);
    assert(whole.take(shown.len() as int) =~= shown);
}

/// The question names the table and the token of what would be revoked, and how to
/// say yes.
pub proof fn law_the_question_names_the_row(confirm: ConfirmView)
    ensures
        ({
            let lines = dialog_of(confirm);
            &&& lines.len() == 8
            &&& lines[1][0].text == "  Revoke the "@ + confirm.table + " permission"@
            &&& lines[2][0].text == "  "@ + confirm.token
            &&& lines[7][0].text == "  y confirm · any other key cancels"@
        }),
{
}

/// The screen shows the view that is open, and the question exactly while a
/// revocation waits, about that very one.
pub proof fn law_what_the_screen_shows(app: AppView, date: Text, stamps: Seq<Text>, height: u16)
    ensures
        ({
            let screen = screen_of(app, date, stamps, height);
            &&& screen.body is Permissions <==> app.tab == Tab::Permisos
            &&& screen.body is Activity <==> app.tab == Tab::Actividad
            &&& screen.body is Revoked <==> app.tab == Tab::Revocados
            &&& screen.dialog is Some <==> app.confirm is Some
            &&& app.confirm matches Some(confirm) ==> screen.dialog == Some(dialog_of(confirm))
            &&& app.tab == Tab::Permisos ==> screen.body->items == items_of(app)
                && screen.body->details == details_of(app, date) && screen.body->selected
                == highlighted(app)
            &&& app.tab == Tab::Actividad ==> screen.body->Activity_0 == activity_panel(app, height)
            &&& app.tab == Tab::Revocados ==> screen.body->Revoked_0 == revoked_panel(
                app.history,
                stamps,
                height,
            )
            &&& screen.title == title_of(app) && screen.footer == footer_of(app) && screen.monitor
                == monitor_state(app)
        }),
{
}

} // verus!
