//! The terminal interface: what it holds, and what keys and events do to it.
//!
//! It runs the bus monitor inside: while the list of permissions is on the
//! screen, a token that read "unattributed" gets a name the moment the
//! application asks for it again.
use std::collections::VecDeque;
use vstd::prelude::*;
use crate::attrib::{self, Cache, RecordView};
use crate::clock::{clock, now};
use crate::history::{self, History, Revocation, RevocationView};
use crate::split::last_piece;
use crate::store::{Entry, EntryView};
use crate::table::Table;
use crate::text::{self, same, Text};
use crate::watch::{self, Event, EventView};

verus! {

/// How many lines of activity are kept before the old ones go.
pub const ACTIVITY_LIMIT: usize = 500;

/// A view of the interface.
#[derive(Debug, Clone, Copy, PartialEq, Eq, Structural)]
pub enum Tab {
    Permisos,
    Actividad,
    Revocados,
}

/// A line of activity.
#[derive(Debug)]
pub struct Activity {
    pub time: String,
    pub app: String,
    pub detail: String,
    /// Whether it is a grant, which is all that leaves a trace.
    pub grant: bool,
}

/// A line of activity as the contracts see it.
pub struct ActivityView {
    pub time: Text,
    pub app: Text,
    pub detail: Text,
    pub grant: bool,
}

impl View for Activity {
    type V = ActivityView;

    open spec fn view(&self) -> ActivityView {
        ActivityView {
            time: self.time@,
            app: self.app@,
            detail: self.detail@,
            grant: self.grant,
        }
    }
}

/// A revocation that waits for its confirmation.
#[derive(Debug)]
pub struct Confirm {
    pub token: String,
    pub table: String,
}

/// A revocation that waits, as the contracts see it.
pub struct ConfirmView {
    pub token: Text,
    pub table: Text,
}

impl View for Confirm {
    type V = ConfirmView;

    open spec fn view(&self) -> ConfirmView {
        ConfirmView { token: self.token@, table: self.table@ }
    }
}

/// What the interface holds.
pub struct App {
    pub entries: Vec<Entry>,
    pub cache: Cache,
    /// What was revoked, which is kept nowhere else.
    pub history: History,
    pub selected: usize,
    pub tab: Tab,
    pub activity: VecDeque<Activity>,
    pub confirm: Option<Confirm>,
    pub status: Option<String>,
    pub monitor_error: Option<String>,
    /// Whether the bus has confirmed that the monitor is listening. Until then
    /// nothing may be said about watching.
    pub monitoring: bool,
    /// The tokens that were attributed since the interface was opened.
    pub fresh: Table<()>,
    pub quit: bool,
}

/// What the interface holds, as the contracts see it.
pub struct AppView {
    pub entries: Seq<EntryView>,
    pub cache: Map<Text, RecordView>,
    pub history: Seq<RevocationView>,
    pub selected: nat,
    pub tab: Tab,
    pub activity: Seq<ActivityView>,
    pub confirm: Option<ConfirmView>,
    pub status: Option<Text>,
    pub monitor_error: Option<Text>,
    pub monitoring: bool,
    pub fresh: Set<Text>,
    pub quit: bool,
}

impl View for App {
    type V = AppView;

    open spec fn view(&self) -> AppView {
        AppView {
            entries: text::views(self.entries@),
            cache: self.cache@,
            history: self.history@,
            selected: self.selected as nat,
            tab: self.tab,
            activity: text::views(self.activity@),
            confirm: text::opt(self.confirm),
            status: text::opt(self.status),
            monitor_error: text::opt(self.monitor_error),
            monitoring: self.monitoring,
            fresh: self.fresh@.dom(),
            quit: self.quit,
        }
    }
}

// ---------------------------------------------------------------------------
// Moving about
// ---------------------------------------------------------------------------
/// The cursor after a move over a list of `len` rows.
pub open spec fn moved(selected: nat, len: nat, delta: int) -> nat {
    if len == 0 {
        selected
    } else if delta < 0 {
        if selected + delta < 0 {
            0
        } else {
            (selected + delta) as nat
        }
    } else if selected + delta > len - 1 {
        (len - 1) as nat
    } else {
        (selected + delta) as nat
    }
}

/// The cursor on the last of `len` rows.
pub open spec fn last_row(len: nat) -> nat {
    if len == 0 {
        0
    } else {
        (len - 1) as nat
    }
}

/// The cursor after the list has been read anew.
pub open spec fn kept_inside(selected: nat, len: nat) -> nat {
    if selected > last_row(len) {
        last_row(len)
    } else {
        selected
    }
}

/// The activity with one line more; the oldest goes where there is no room.
pub open spec fn with_activity(log: Seq<ActivityView>, line: ActivityView) -> Seq<ActivityView> {
    if log.len() >= ACTIVITY_LIMIT {
        log.drop_first().push(line)
    } else {
        log.push(line)
    }
}

/// The line of activity of a call.
pub open spec fn call_activity(identity: attrib::IdentityView, interface: Text, member: Text, clock: Text) -> ActivityView {
    ActivityView {
        time: clock,
        app: identity.label(),
        detail: watch::short_name(interface) + "."@ + member,
        grant: false,
    }
}

/// The line of activity of a grant.
pub open spec fn grant_activity(identity: attrib::IdentityView, table: Text, clock: Text) -> ActivityView {
    ActivityView {
        time: clock,
        app: identity.label(),
        detail: "was granted persistent "@ + table + " access"@,
        grant: true,
    }
}

impl AppView {
    /// The row under the cursor.
    pub open spec fn current(self) -> Option<EntryView> {
        if self.selected < self.entries.len() {
            Some(self.entries[self.selected as int])
        } else {
            None
        }
    }

    /// The cursor stands on a row, or at the start where there is none, and
    /// the activity is within its limit.
    pub open spec fn in_bounds(self) -> bool {
        &&& self.selected == 0 || self.selected < self.entries.len()
        &&& self.activity.len() <= ACTIVITY_LIMIT
    }

    /// The interface after an event of the monitor.
    pub open spec fn after_event(self, event: EventView, clock: Text, now: i64) -> AppView {
        match event {
            EventView::Ready => AppView { monitoring: true, ..self },
            EventView::Call { identity, interface, member } => AppView {
                activity: with_activity(
                    self.activity,
                    call_activity(identity, interface, member, clock),
                ),
                ..self
            },
            EventView::Grant { identity, token, table } => AppView {
                cache: self.cache.insert(
                    token,
                    attrib::sighted(self.cache, token, identity, table, now),
                ),
                fresh: self.fresh.insert(token),
                activity: with_activity(self.activity, grant_activity(identity, table, clock)),
                ..self
            },
            EventView::Error(message) => AppView { monitor_error: Some(message), ..self },
        }
    }
}

impl App {
    /// The interface as it opens.
    pub fn new(entries: Vec<Entry>, cache: Cache, history: History) -> (r: Self)
        ensures
            r@ == (AppView {
                entries: text::views(entries@),
                cache: cache@,
                history: history@,
                selected: 0,
                tab: Tab::Permisos,
                activity: Seq::empty(),
                confirm: None,
                status: None,
                monitor_error: None,
                monitoring: false,
                fresh: Set::empty(),
                quit: false,
            }),
    {
        broadcast use crate::text::group_views;

        let r = App {
            entries,
            cache,
            history,
            selected: 0,
            tab: Tab::Permisos,
            activity: VecDeque::new(),
            confirm: None,
            status: None,
            monitor_error: None,
            monitoring: false,
            fresh: Table::new(),
            quit: false,
        };
        proof {
            assert(r@.fresh =~= Set::<Text>::empty());
            assert(r@.activity =~= Seq::<ActivityView>::empty());
        }
        r
    }

    /// The row under the cursor.
    pub fn current(&self) -> (r: Option<&Entry>)
        ensures
            match r {
                Some(entry) => self@.current() == Some(entry@),
                None => self@.current() is None,
            },
    {
        if self.selected < self.entries.len() {
            Some(&self.entries[self.selected])
        } else {
            None
        }
    }

    /// Moves the cursor.
    pub fn move_by(&mut self, delta: isize)
        ensures
            final(self)@ == (AppView {
                selected: moved(old(self)@.selected, old(self)@.entries.len(), delta as int),
                ..old(self)@
            }),
    {
        if self.entries.len() == 0 {
            return;
        }
        let last: usize = self.entries.len() - 1;
        if delta < 0 {
            let back: usize = (-(delta + 1)) as usize;
            self.selected = if self.selected <= back {
                0
            } else {
                self.selected - back - 1
            };
        } else {
            let forward: usize = delta as usize;
            self.selected = if self.selected > last || forward > last - self.selected {
                last
            } else {
                self.selected + forward
            };
        }
    }

    /// Adds a line of activity.
    pub fn push_activity(&mut self, activity: Activity)
        ensures
            final(self)@ == (AppView {
                activity: with_activity(old(self)@.activity, activity@),
                ..old(self)@
            }),
    {
        let ghost before = self.activity@;
        let ghost line = activity@;
        if self.activity.len() >= ACTIVITY_LIMIT {
            self.activity.pop_front();
        }
        self.activity.push_back(activity);
        proof {
            assert(text::views(self.activity@) =~= with_activity(text::views(before), line));
        }
    }

    /// Takes an event of the monitor that came at a given time, and says whether
    /// the store is to be read anew, as a new permission has just appeared.
    pub fn on_monitor_at(&mut self, event: Event, clock: &str, now: i64) -> (reload: bool)
        ensures
            final(self)@ == old(self)@.after_event(event@, clock@, now),
            reload == event@ is Grant,
    {
        match event {
            Event::Ready => {
                self.monitoring = true;
                false
            },
            Event::Call { identity, interface, member } => {
                let short = last_piece(interface.as_str(), '.');
                self.push_activity(
                    Activity {
                        time: clock.to_owned(),
                        app: identity.label(),
                        detail: short.concat(".").concat(member.as_str()),
                        grant: false,
                    },
                );
                false
            },
            Event::Grant { identity, token, table } => {
                let line = Activity {
                    time: clock.to_owned(),
                    app: identity.label(),
                    detail: "was granted persistent ".to_owned().concat(table).concat(" access"),
                    grant: true,
                };
                let ghost before = self@;
                self.cache.observe(token.as_str(), identity, table, now);
                self.fresh.insert(token, ());
                proof {
                    assert(self@.fresh =~= before.fresh.insert(token@));
                }
                self.push_activity(line);
                true
            },
            Event::Error(message) => {
                self.monitor_error = Some(message);
                false
            },
        }
    }

    /// Takes an event of the monitor that has just come.
    pub fn on_monitor(&mut self, event: Event) -> (reload: bool)
        ensures
            exists|clock: Text, now: i64|
                crate::clock::tells_clock(clock) && final(self)@
                    == #[trigger] old(self)@.after_event(event@, clock, now),
            reload == event@ is Grant,
    {
        let hour = clock();
        let moment: i64 = now();
        self.on_monitor_at(event, hour.as_str(), moment)
    }

    /// Says that the attributions could not be saved.
    pub fn on_save_failed(&mut self, error: &str)
        ensures
            final(self)@ == (AppView {
                status: Some("could not save the attribution: "@ + error@),
                ..old(self)@
            }),
    {
        self.status = Some("could not save the attribution: ".to_owned().concat(error));
    }
}

// ---------------------------------------------------------------------------
// Keys
// ---------------------------------------------------------------------------
/// A key.
#[derive(Debug, Clone, Copy, PartialEq, Eq, Structural)]
pub enum Key {
    Char(char),
    Esc,
    Up,
    Down,
    Home,
    End,
    Tab,
    Other,
}

/// A permission that is being revoked: what to delete, and what is known of it.
#[derive(Debug)]
pub struct Revoking {
    pub token: String,
    pub table: String,
    pub snapshot: Option<Revocation>,
}

/// A permission that is being revoked, as the contracts see it.
pub struct RevokingView {
    pub token: Text,
    pub table: Text,
    pub snapshot: Option<RevocationView>,
}

impl View for Revoking {
    type V = RevokingView;

    open spec fn view(&self) -> RevokingView {
        RevokingView {
            token: self.token@,
            table: self.table@,
            snapshot: text::opt(self.snapshot),
        }
    }
}

/// What a key asks for outside the interface.
pub enum Action {
    Nothing,
    /// To read the store anew.
    Reload,
    /// To delete a row from the store.
    Delete(Revoking),
}

/// What a key asks for, as the contracts see it.
pub enum ActionView {
    Nothing,
    Reload,
    Delete(RevokingView),
}

impl View for Action {
    type V = ActionView;

    open spec fn view(&self) -> ActionView {
        match self {
            Action::Nothing => ActionView::Nothing,
            Action::Reload => ActionView::Reload,
            Action::Delete(revoking) => ActionView::Delete(revoking@),
        }
    }
}

/// The view that comes after another.
pub open spec fn tab_after(tab: Tab) -> Tab {
    match tab {
        Tab::Permisos => Tab::Actividad,
        Tab::Actividad => Tab::Revocados,
        Tab::Revocados => Tab::Permisos,
    }
}

/// The first row, from place `from` on, of a token in a table.
pub open spec fn row_from(entries: Seq<EntryView>, token: Text, table: Text, from: int) -> Option<
    EntryView,
>
    decreases entries.len() - from,
{
    if from < 0 || from >= entries.len() {
        None
    } else if entries[from].id == token && entries[from].table == table {
        Some(entries[from])
    } else {
        row_from(entries, token, table, from + 1)
    }
}

impl AppView {
    /// The revocation of a permission at a given time: what is known of it is
    /// taken down before it is deleted.
    pub open spec fn revoking(self, confirm: ConfirmView, now: i64) -> RevokingView {
        RevokingView {
            token: confirm.token,
            table: confirm.table,
            snapshot: match row_from(self.entries, confirm.token, confirm.table, 0) {
                Some(entry) => Some(history::snapshot(entry, self.cache, now)),
                None => None,
            },
        }
    }

    /// The interface after a key while a revocation waits: it is confirmed, or
    /// any other key cancels it.
    pub open spec fn after_answer(self, key: Key) -> AppView {
        if key == Key::Char('y') || key == Key::Char('Y') {
            AppView { confirm: None, ..self }
        } else {
            AppView { confirm: None, status: Some("revocation cancelled"@), ..self }
        }
    }

    /// The interface after a key while nothing waits.
    pub open spec fn after_command(self, key: Key) -> AppView {
        match key {
            Key::Char('q') => AppView { quit: true, ..self },
            Key::Esc => AppView { quit: true, ..self },
            Key::Char('j') => AppView {
                selected: moved(self.selected, self.entries.len(), 1),
                ..self
            },
            Key::Down => AppView { selected: moved(self.selected, self.entries.len(), 1), ..self },
            Key::Char('k') => AppView {
                selected: moved(self.selected, self.entries.len(), -1),
                ..self
            },
            Key::Up => AppView { selected: moved(self.selected, self.entries.len(), -1), ..self },
            Key::Home => AppView { selected: 0, ..self },
            Key::End => AppView { selected: last_row(self.entries.len()), ..self },
            Key::Tab => AppView { tab: tab_after(self.tab), ..self },
            Key::Char('1') => AppView { tab: Tab::Permisos, ..self },
            Key::Char('2') => AppView { tab: Tab::Actividad, ..self },
            Key::Char('3') => AppView { tab: Tab::Revocados, ..self },
            Key::Char('r') => match self.current() {
                Some(entry) => AppView {
                    confirm: Some(ConfirmView { token: entry.id, table: entry.table }),
                    ..self
                },
                None => self,
            },
            _ => self,
        }
    }

    /// The interface after a key. With the control key, a `c` ends it whatever
    /// else is going on.
    pub open spec fn after_key(self, key: Key, control: bool) -> AppView {
        if control && key == Key::Char('c') {
            AppView { quit: true, ..self }
        } else if self.confirm is Some {
            self.after_answer(key)
        } else {
            self.after_command(key)
        }
    }

    /// What a key asks for.
    pub open spec fn asked_by(self, key: Key, control: bool, now: i64) -> ActionView {
        if control && key == Key::Char('c') {
            ActionView::Nothing
        } else if self.confirm is Some {
            if key == Key::Char('y') || key == Key::Char('Y') {
                ActionView::Delete(self.revoking(self.confirm->0, now))
            } else {
                ActionView::Nothing
            }
        } else if key == Key::Char('R') {
            ActionView::Reload
        } else {
            ActionView::Nothing
        }
    }

    /// The interface after the store has been read anew, or could not be. Where
    /// the user asked for it, that is said.
    pub open spec fn after_reload(self, result: Result<Seq<EntryView>, Text>, asked: bool) -> AppView {
        let read = match result {
            Ok(entries) => AppView {
                entries,
                selected: kept_inside(self.selected, entries.len()),
                ..self
            },
            Err(error) => AppView {
                status: Some("could not re-read the store: "@ + error),
                ..self
            },
        };
        if asked {
            AppView { status: Some("list reloaded"@), ..read }
        } else {
            read
        }
    }

    /// The interface after a row has been deleted from the store: what was
    /// known of it is in the log.
    pub open spec fn after_deletion(self, revoking: RevokingView) -> AppView {
        match revoking.snapshot {
            Some(revocation) => AppView { history: self.history.push(revocation), ..self },
            None => self,
        }
    }
}

/// What is said of a deletion, given how saving the log went.
pub open spec fn revoked_status(token: Text, error: Option<Text>) -> Text {
    match error {
        None => "revoked "@ + token,
        Some(error) => "revoked "@ + token + ", but the log failed: "@ + error,
    }
}

impl App {
    /// What is known of a row of the list, taken down at a given time.
    fn take_down(&self, token: &str, table: &str, now: i64) -> (r: Option<Revocation>)
        ensures
            text::opt(r) == self@.revoking(
                ConfirmView { token: token@, table: table@ },
                now,
            ).snapshot,
    {
        let ghost all = text::views(self.entries@);
        let n = self.entries.len();
        let mut i: usize = 0;
        while i < n
            invariant
                i <= n,
                n == self.entries@.len(),
                all == text::views(self.entries@),
                row_from(all, token@, table@, 0) == row_from(all, token@, table@, i as int),
            decreases n - i,
        {
            let entry = &self.entries[i];
            if same(entry.id.as_str(), token) && same(entry.table.as_str(), table) {
                return Some(Revocation::of(entry, &self.cache, now));
            }
            i = i + 1;
        }
        None
    }

    /// Takes a key while a revocation waits.
    fn answer(&mut self, confirm: Confirm, key: Key, now: i64) -> (r: Action)
        requires
            old(self)@.confirm is None,
        ensures
            final(self)@ == old(self)@.after_answer(key),
            r@ == if key == Key::Char('y') || key == Key::Char('Y') {
                ActionView::Delete(old(self)@.revoking(confirm@, now))
            } else {
                ActionView::Nothing
            },
    {
        if key == Key::Char('y') || key == Key::Char('Y') {
            let snapshot = self.take_down(confirm.token.as_str(), confirm.table.as_str(), now);
            Action::Delete(Revoking { token: confirm.token, table: confirm.table, snapshot })
        } else {
            self.status = Some("revocation cancelled".to_owned());
            Action::Nothing
        }
    }

    /// Takes a key while nothing waits.
    fn command(&mut self, key: Key) -> (r: Action)
        ensures
            final(self)@ == old(self)@.after_command(key),
            r@ == if key == Key::Char('R') {
                ActionView::Reload
            } else {
                ActionView::Nothing
            },
    {
        match key {
            Key::Char('q') => {
                self.quit = true;
            },
            Key::Esc => {
                self.quit = true;
            },
            Key::Char('j') => self.move_by(1),
            Key::Down => self.move_by(1),
            Key::Char('k') => self.move_by(-1),
            Key::Up => self.move_by(-1),
            Key::Home => {
                self.selected = 0;
            },
            Key::End => {
                self.selected = if self.entries.len() == 0 {
                    0
                } else {
                    self.entries.len() - 1
                };
            },
            Key::Tab => {
                self.tab = match self.tab {
                    Tab::Permisos => Tab::Actividad,
                    Tab::Actividad => Tab::Revocados,
                    Tab::Revocados => Tab::Permisos,
                };
            },
            Key::Char('1') => {
                self.tab = Tab::Permisos;
            },
            Key::Char('2') => {
                self.tab = Tab::Actividad;
            },
            Key::Char('3') => {
                self.tab = Tab::Revocados;
            },
            Key::Char('R') => {
                return Action::Reload;
            },
            Key::Char('r') => {
                let asked = match self.current() {
                    Some(entry) => Some(
                        Confirm { token: entry.id.clone(), table: entry.table.clone() },
                    ),
                    None => None,
                };
                if asked.is_some() {
                    self.confirm = asked;
                }
            },
            _ => {},
        }
        Action::Nothing
    }

    /// Takes a key that was pressed at a given time.
    pub fn handle_key_at(&mut self, key: Key, control: bool, now: i64) -> (r: Action)
        ensures
            final(self)@ == old(self)@.after_key(key, control),
            r@ == old(self)@.asked_by(key, control, now),
    {
        if control && key == Key::Char('c') {
            self.quit = true;
            return Action::Nothing;
        }
        let waiting = self.confirm.take();
        match waiting {
            Some(confirm) => self.answer(confirm, key, now),
            None => self.command(key),
        }
    }

    /// Takes a key that has just been pressed.
    pub fn handle_key(&mut self, key: Key, control: bool) -> (r: Action)
        ensures
            final(self)@ == old(self)@.after_key(key, control),
            exists|now: i64| r@ == #[trigger] old(self)@.asked_by(key, control, now),
    {
        let moment: i64 = now();
        self.handle_key_at(key, control, moment)
    }

    /// Takes what was read anew from the store.
    pub fn on_reloaded(&mut self, result: Result<Vec<Entry>, String>, asked: bool)
        ensures
            final(self)@ == old(self)@.after_reload(
                match result {
                    Ok(entries) => Ok(text::views(entries@)),
                    Err(error) => Err(error@),
                },
                asked,
            ),
    {
        match result {
            Ok(entries) => {
                let last: usize = if entries.len() == 0 {
                    0
                } else {
                    entries.len() - 1
                };
                self.entries = entries;
                if self.selected > last {
                    self.selected = last;
                }
            },
            Err(error) => {
                self.status = Some(
                    "could not re-read the store: ".to_owned().concat(error.as_str()),
                );
            },
        }
        if asked {
            self.status = Some("list reloaded".to_owned());
        }
    }

    /// Takes note that a row was deleted, and says whether the log has changed.
    pub fn on_deleted(&mut self, revoking: Revoking) -> (changed: bool)
        ensures
            final(self)@ == old(self)@.after_deletion(revoking@),
            changed == revoking@.snapshot is Some,
    {
        match revoking.snapshot {
            Some(revocation) => {
                self.history.record(revocation);
                true
            },
            None => false,
        }
    }

    /// Says that a permission was revoked, given how saving the log went.
    pub fn on_logged(&mut self, token: &str, error: Option<&str>)
        ensures
            final(self)@ == (AppView {
                status: Some(revoked_status(token@, text::opt(error))),
                ..old(self)@
            }),
    {
        self.status = Some(
            match error {
                None => "revoked ".to_owned().concat(token),
                Some(error) => "revoked ".to_owned().concat(token).concat(
                    ", but the log failed: ",
                ).concat(error),
            },
        );
    }

    /// Says that a permission could not be revoked.
    pub fn on_delete_failed(&mut self, error: &str)
        ensures
            final(self)@ == (AppView {
                status: Some("could not revoke: "@ + error@),
                ..old(self)@
            }),
    {
        self.status = Some("could not revoke: ".to_owned().concat(error));
    }
}

// ---------------------------------------------------------------------------
// What holds whatever happens
// ---------------------------------------------------------------------------
/// The cursor never leaves the list, whatever the move.
pub proof fn law_the_cursor_stays_in_the_list(selected: nat, len: nat, delta: int)
    requires
        selected < len,
    ensures
        moved(selected, len, delta) < len,
        delta < 0 ==> moved(selected, len, delta) <= selected,
        delta >= 0 ==> moved(selected, len, delta) >= selected,
{
}

/// The activity never grows past its limit, and what goes is the oldest: the
/// new line is always the last.
pub proof fn law_activity_is_bounded(log: Seq<ActivityView>, line: ActivityView)
    requires
        log.len() <= ACTIVITY_LIMIT,
    ensures
        with_activity(log, line).len() <= ACTIVITY_LIMIT,
        with_activity(log, line).last() == line,
        log.len() < ACTIVITY_LIMIT ==> with_activity(log, line) == log.push(line),
{
}

/// The cursor and the activity stay within their bounds through every event,
/// every key and every reading of the store.
pub proof fn law_bounds_are_kept(
    app: AppView,
    event: EventView,
    key: Key,
    control: bool,
    result: Result<Seq<EntryView>, Text>,
    asked: bool,
    revoking: RevokingView,
    clock: Text,
    now: i64,
)
    requires
        app.in_bounds(),
    ensures
        app.after_event(event, clock, now).in_bounds(),
        app.after_key(key, control).in_bounds(),
        app.after_reload(result, asked).in_bounds(),
        app.after_deletion(revoking).in_bounds(),
{
}

/// A revocation takes two keys: no key alone makes a row be deleted, and while
/// one waits any key but a yes lets it go.
pub proof fn law_revoking_takes_a_confirmation(app: AppView, key: Key, control: bool, now: i64)
    ensures
        app.asked_by(key, control, now) is Delete ==> app.confirm is Some && (key == Key::Char('y')
            || key == Key::Char('Y')),
        app.asked_by(key, control, now) matches ActionView::Delete(revoking) ==> revoking
            == app.revoking(app.confirm->0, now),
        app.confirm is Some && !(control && key == Key::Char('c')) ==> app.after_key(
            key,
            control,
        ).confirm is None,
{
}

/// That the monitor is listening is said only after the bus has confirmed it.
pub proof fn law_watching_is_not_claimed_early(app: AppView, event: EventView, clock: Text, now: i64)
    requires
        !app.monitoring,
        !(event is Ready),
    ensures
        !app.after_event(event, clock, now).monitoring,
{
}

/// A grant marks its token as fresh and attributes it, and asks for nothing
/// else of the list.
pub proof fn law_a_grant_names_its_token(
    app: AppView,
    identity: attrib::IdentityView,
    token: Text,
    table: Text,
    clock: Text,
    now: i64,
)
    ensures
        ({
            let after = app.after_event(
                EventView::Grant { identity, token, table },
                clock,
                now,
            );
            &&& after.fresh.contains(token)
            &&& after.cache.contains_key(token)
            &&& after.cache[token].identity == identity
            &&& after.entries == app.entries
            &&& after.history == app.history
        }),
{
}

/// What is revoked is the row under the cursor. An `r` on it waits for a
/// confirmation of that very row, and changes nothing else; the yes that follows
/// deletes that row and no other, and takes down what was known of it.
pub proof fn law_the_row_under_the_cursor_is_revoked(app: AppView, yes: Key, control: bool, now: i64)
    requires
        app.confirm is None,
        app.selected < app.entries.len(),
        yes == Key::Char('y') || yes == Key::Char('Y'),
    ensures
        ({
            let row = app.entries[app.selected as int];
            let waiting = app.after_key(Key::Char('r'), control);
            &&& waiting.confirm == Some(ConfirmView { token: row.id, table: row.table })
            &&& waiting == AppView { confirm: waiting.confirm, ..app }
            &&& app.asked_by(Key::Char('r'), control, now) is Nothing
            &&& waiting.asked_by(yes, control, now) matches ActionView::Delete(revoking) && {
                &&& revoking.token == row.id
                &&& revoking.table == row.table
                &&& revoking.snapshot matches Some(taken) && taken.token == row.id && taken.table
                    == row.table && taken.revoked_at == now
            }
        }),
{
    lemma_row_found(app.entries, app.entries[app.selected as int], app.selected as int, 0);
}

/// A row that is there is found, or an earlier one of the same token and table.
proof fn lemma_row_found(entries: Seq<EntryView>, row: EntryView, at: int, from: int)
    requires
        0 <= from <= at < entries.len(),
        entries[at] == row,
    ensures
        row_from(entries, row.id, row.table, from) matches Some(found) && found.id == row.id
            && found.table == row.table && exists|k: int|
            from <= k <= at && #[trigger] entries[k] == found,
    decreases at - from,
{
    if !(entries[from].id == row.id && entries[from].table == row.table) {
        lemma_row_found(entries, row, at, from + 1);
    }
}

/// With no row under the cursor an `r` does nothing.
pub proof fn law_nothing_to_revoke(app: AppView, control: bool, now: i64)
    requires
        app.confirm is None,
        app.selected >= app.entries.len(),
    ensures
        app.after_key(Key::Char('r'), control) == app,
        app.asked_by(Key::Char('r'), control, now) is Nothing,
{
}

/// What waits for a confirmation is what is deleted, whatever the cursor does in
/// between: the row that is deleted is the one that was asked about. What is
/// taken down is what the list and the attributions say of such a row.
pub proof fn law_what_waits_is_what_is_deleted(app: AppView, key: Key, control: bool, now: i64)
    requires
        app.confirm is Some,
        app.asked_by(key, control, now) is Delete,
    ensures
        ({
            let revoking = app.asked_by(key, control, now)->Delete_0;
            let wanted = app.confirm->0;
            &&& key == Key::Char('y') || key == Key::Char('Y')
            &&& revoking.token == wanted.token
            &&& revoking.table == wanted.table
            &&& match revoking.snapshot {
                Some(taken) => exists|k: int|
                    0 <= k < app.entries.len() && (#[trigger] app.entries[k]).id == wanted.token
                        && app.entries[k].table == wanted.table && taken == history::snapshot(
                        app.entries[k],
                        app.cache,
                        now,
                    ),
                None => forall|k: int|
                    0 <= k < app.entries.len() ==> (#[trigger] app.entries[k]).id != wanted.token
                        || app.entries[k].table != wanted.table,
            }
        }),
{
    lemma_row_from(app.entries, app.confirm->0.token, app.confirm->0.table, 0);
}

/// The first row of a token in a table, or none where there is none.
proof fn lemma_row_from(entries: Seq<EntryView>, token: Text, table: Text, from: int)
    requires
        0 <= from,
    ensures
        match row_from(entries, token, table, from) {
            Some(found) => exists|k: int|
                from <= k < entries.len() && (#[trigger] entries[k]).id == token && entries[k].table
                    == table && entries[k] == found,
            None => forall|k: int|
                from <= k < entries.len() ==> (#[trigger] entries[k]).id != token || entries[k].table
                    != table,
        },
    decreases entries.len() - from,
{
    if from < entries.len() && !(entries[from].id == token && entries[from].table == table) {
        lemma_row_from(entries, token, table, from + 1);
    }
}

/// While a revocation waits, a yes lets it go ahead without a word, and any other
/// key cancels it and says so; nothing else changes, and nothing is deleted.
pub proof fn law_any_other_key_cancels(app: AppView, key: Key, control: bool, now: i64)
    requires
        app.confirm is Some,
        !(control && key == Key::Char('c')),
    ensures
        ({
            let after = app.after_key(key, control);
            let yes = key == Key::Char('y') || key == Key::Char('Y');
            &&& after == AppView { confirm: None, status: after.status, ..app }
            &&& yes ==> after.status == app.status
            &&& !yes ==> after.status == Some("revocation cancelled"@)
            &&& !yes ==> app.asked_by(key, control, now) is Nothing
        }),
{
}

/// The cursor keys move the cursor by one row and stop at the ends of the list,
/// or take it to an end, and change nothing else.
pub proof fn law_the_cursor_keys(app: AppView, control: bool, now: i64)
    requires
        app.confirm is None,
        app.selected < app.entries.len(),
    ensures
        ({
            let down = app.after_key(Key::Down, control);
            let up = app.after_key(Key::Up, control);
            let home = app.after_key(Key::Home, control);
            let end = app.after_key(Key::End, control);
            &&& app.after_key(Key::Char('j'), control) == down
            &&& app.after_key(Key::Char('k'), control) == up
            &&& down == AppView { selected: down.selected, ..app }
            &&& up == AppView { selected: up.selected, ..app }
            &&& home == AppView { selected: 0, ..app }
            &&& end == AppView { selected: end.selected, ..app }
            &&& app.selected + 1 < app.entries.len() ==> down.selected == app.selected + 1
            &&& app.selected + 1 == app.entries.len() ==> down == app
            &&& app.selected > 0 ==> up.selected == app.selected - 1
            &&& app.selected == 0 ==> up == app
            &&& end.selected + 1 == app.entries.len()
            &&& app.asked_by(Key::Down, control, now) is Nothing
            &&& app.asked_by(Key::Up, control, now) is Nothing
        }),
{
}

/// Any move takes the cursor as far as was asked, or to the end of the list that
/// is in the way.
pub proof fn law_moves_go_as_far_as_they_can(selected: nat, len: nat, delta: int)
    requires
        selected < len,
    ensures
        0 <= selected + delta < len ==> moved(selected, len, delta) == selected + delta,
        selected + delta < 0 ==> moved(selected, len, delta) == 0,
        selected + delta >= len ==> moved(selected, len, delta) == len - 1,
{
}

/// The keys of the views: a tab goes round all three, and a number goes to one.
/// Nothing else changes.
pub proof fn law_the_views_go_round(app: AppView, control: bool)
    requires
        app.confirm is None,
    ensures
        ({
            let once = app.after_key(Key::Tab, control);
            let twice = once.after_key(Key::Tab, control);
            &&& once == AppView { tab: once.tab, ..app }
            &&& once.tab != app.tab && twice.tab != app.tab && twice.tab != once.tab
            &&& twice.after_key(Key::Tab, control) == app
            &&& app.tab == Tab::Permisos ==> once.tab == Tab::Actividad && twice.tab
                == Tab::Revocados
        }),
        app.after_key(Key::Char('1'), control) == (AppView { tab: Tab::Permisos, ..app }),
        app.after_key(Key::Char('2'), control) == (AppView { tab: Tab::Actividad, ..app }),
        app.after_key(Key::Char('3'), control) == (AppView { tab: Tab::Revocados, ..app }),
{
}

/// How the interface is left: by `q` or escape while nothing waits, and by a `c`
/// with the control key at any time; no other key ends it, and ending it
/// deletes nothing and changes nothing else.
pub proof fn law_how_the_interface_is_left(app: AppView, key: Key, control: bool, now: i64)
    requires
        !app.quit,
    ensures
        app.after_key(key, control).quit <==> (control && key == Key::Char('c')) || (
        app.confirm is None && (key == Key::Char('q') || key == Key::Esc)),
        app.after_key(key, control).quit ==> app.after_key(key, control) == (AppView {
            quit: true,
            ..app
        }) && app.asked_by(key, control, now) is Nothing,
{
}

/// The store is read anew where a capital `R` asks for it while nothing waits, and
/// that changes nothing by itself.
pub proof fn law_what_reads_the_store_anew(app: AppView, key: Key, control: bool, now: i64)
    ensures
        app.asked_by(key, control, now) is Reload <==> app.confirm is None && key == Key::Char('R'),
        app.asked_by(key, control, now) is Reload ==> app.after_key(key, control) == app,
{
}

/// No key touches the list, the attributions, the log, the activity or what is
/// known of the monitor.
pub proof fn law_keys_touch_no_data(app: AppView, key: Key, control: bool)
    ensures
        ({
            let after = app.after_key(key, control);
            &&& after.entries == app.entries
            &&& after.cache == app.cache
            &&& after.history == app.history
            &&& after.activity == app.activity
            &&& after.fresh == app.fresh
            &&& after.monitoring == app.monitoring
            &&& after.monitor_error == app.monitor_error
        }),
{
}

/// After the store has been read anew the list is what was read. The cursor stays
/// on its row number where there is one, and else goes to the last row. Where
/// the store could not be read, the list and the cursor stay.
pub proof fn law_reading_anew(app: AppView, entries: Seq<EntryView>, error: Text, asked: bool)
    ensures
        ({
            let read = app.after_reload(Ok(entries), asked);
            let failed = app.after_reload(Err(error), asked);
            &&& read.entries == entries
            &&& app.selected < entries.len() ==> read.selected == app.selected
            &&& app.selected >= entries.len() && entries.len() > 0 ==> read.selected + 1
                == entries.len()
            &&& entries.len() == 0 ==> read.selected == 0
            &&& read == AppView {
                entries,
                selected: read.selected,
                status: if asked {
                    Some("list reloaded"@)
                } else {
                    app.status
                },
                ..app
            }
            &&& failed == AppView { status: failed.status, ..app }
            &&& failed.status == if asked {
                Some("list reloaded"@)
            } else {
                Some("could not re-read the store: "@ + error)
            }
        }),
{
}

/// After a deletion the log ends in what was taken down of the row, behind all
/// that it held before; nothing else changes.
pub proof fn law_a_deletion_is_logged(app: AppView, revoking: RevokingView)
    ensures
        ({
            let after = app.after_deletion(revoking);
            &&& after == AppView { history: after.history, ..app }
            &&& app.history.is_prefix_of(after.history)
            &&& revoking.snapshot matches Some(taken) ==> after.history.len() == app.history.len() + 1
                && after.history.last() == taken
            &&& revoking.snapshot is None ==> after.history == app.history
        }),
{
    assert(app.history.is_prefix_of(app.after_deletion(revoking).history));
}

/// The activity keeps the latest lines: those of before and the new one, in
/// order, without the oldest where there are more than five hundred.
pub proof fn law_the_latest_activity_is_kept(log: Seq<ActivityView>, line: ActivityView)
    requires
        log.len() <= 500,
    ensures
        log.len() < 500 ==> with_activity(log, line) == log.push(line),
        log.len() == 500 ==> with_activity(log, line) == log.push(line).skip(1),
{
    if log.len() == 500 {
        assert(with_activity(log, line) =~= log.push(line).skip(1));
    }
}

/// What an event of the monitor does. A call leaves a line of activity with the
/// time, the process and what it called, and nothing else. A grant leaves a line
/// that is marked as one, attributes its token, marks it as fresh, and touches no
/// other token. An error is kept with its own words.
#[verifier::rlimit(50)]
pub proof fn law_what_events_do(
    app: AppView,
    event: EventView,
    clock: Text,
    now: i64,
    other: Text,
)
    requires
        app.activity.len() < 500,
    ensures
        ({
            let after = app.after_event(event, clock, now);
            match event {
                EventView::Ready => after == AppView { monitoring: true, ..app },
                EventView::Call { identity, interface, member } => {
                    &&& after == AppView { activity: after.activity, ..app }
                    &&& after.activity == app.activity.push(
                        ActivityView {
                            time: clock,
                            app: identity.label(),
                            detail: crate::split::after_last(interface, '.') + "."@ + member,
                            grant: false,
                        },
                    )
                },
                EventView::Grant { identity, token, table } => {
                    &&& after == AppView {
                        cache: after.cache,
                        fresh: after.fresh,
                        activity: after.activity,
                        ..app
                    }
                    &&& after.activity == app.activity.push(
                        ActivityView {
                            time: clock,
                            app: identity.label(),
                            detail: "was granted persistent "@ + table + " access"@,
                            grant: true,
                        },
                    )
                    &&& after.cache.contains_key(token)
                    &&& after.cache[token].identity == identity
                    &&& after.cache[token].last_seen == now
                    &&& !app.cache.contains_key(token) ==> after.cache[token].first_seen == now
                        && after.cache[token].table == table
                    &&& app.cache.contains_key(token) ==> after.cache[token].first_seen
                        == app.cache[token].first_seen && after.cache[token].table
                        == app.cache[token].table
                    &&& after.fresh.contains(token)
                    &&& other != token ==> after.fresh.contains(other) == app.fresh.contains(other)
                    &&& other != token ==> after.cache.contains_key(other)
                        == app.cache.contains_key(other)
                    &&& other != token && app.cache.contains_key(other) ==> after.cache[other]
                        == app.cache[other]
                },
                EventView::Error(message) => after == AppView {
                    monitor_error: Some(message),
                    ..app
                },
            }
        }),
{
}

/// What is said of a revocation names its token, and does not hide that the log
/// could not be saved.
pub proof fn law_a_lost_log_is_not_hidden(token: Text, error: Text)
    ensures
        revoked_status(token, None) == "revoked "@ + token,
        ("revoked "@ + token).is_prefix_of(revoked_status(token, Some(error))),
        error.is_suffix_of(revoked_status(token, Some(error))),
        revoked_status(token, Some(error)) != revoked_status(token, None),
{
    reveal_strlit(", but the log failed: ");
    assert(", but the log failed: "@.len() == 22);
    let bad = revoked_status(token, Some(error));
    let good = "revoked "@ + token;
    assert(bad.take(good.len() as int) =~= good);
    assert(bad.subrange(bad.len() - error.len(), bad.len() as int) =~= error);
    assert(bad.len() > good.len());
}

} // verus!
