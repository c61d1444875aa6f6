//! The bus monitor: it builds the attribution that the system does not keep.
//!
//! The store files a permission without the name of who asked for it, but the
//! request travels over the bus, where its sender can be identified. What ties
//! the two together is the path of the request object:
//!
//! ```text
//! /org/freedesktop/portal/desktop/request/<SENDER>/<handle_token>
//! ```
//!
//! where `<SENDER>` is the sender's unique name without its colon and with its
//! dots turned into underscores. The portal's response comes from that path,
//! and carries the token of the permission.
//!
//! What arrives on the bus is handed to a [`Monitor`], which decides what it
//! means; what is done about it is decided by a [`Watcher`].
use vstd::prelude::*;
use crate::attrib::{self, Cache, Identity, IdentityView, RecordView};
use crate::clock::{clock, now};
use crate::format::pad_right;
use crate::json::{self, Json, JsonView};
use crate::notify::{self, grant, Notification, NotificationView};
use crate::report::{Report, ReportView};
use crate::sessions;
use crate::split::{self, begins_with, last_piece, swap_char};
use crate::store::{self, value_to_json, Variant};
use crate::style::{self, bold, cyan, dimmed, green, yellow};
use crate::table::Table;
use crate::text::{self, chars_of, decimal, same, string_of, Text};

verus! {

/// What the monitor observes on the bus.
#[derive(Debug)]
pub enum Event {
    /// The bus has confirmed that the monitor is listening.
    Ready,
    /// An application has called a sensitive portal.
    Call { identity: Identity, interface: String, member: String },
    /// The portal has granted a persistent permission.
    Grant { identity: Identity, token: String, table: &'static str },
    /// The monitor could not start, or has stopped.
    Error(String),
}

/// What the monitor observes, as the contracts see it.
pub enum EventView {
    Ready,
    Call { identity: IdentityView, interface: Text, member: Text },
    Grant { identity: IdentityView, token: Text, table: Text },
    Error(Text),
}

impl View for Event {
    type V = EventView;

    open spec fn view(&self) -> EventView {
        match self {
            Event::Ready => EventView::Ready,
            Event::Call { identity, interface, member } => EventView::Call {
                identity: identity@,
                interface: interface@,
                member: member@,
            },
            Event::Grant { identity, token, table } => EventView::Grant {
                identity: identity@,
                token: token@,
                table: table@,
            },
            Event::Error(message) => EventView::Error(message@),
        }
    }
}

impl Clone for Event {
    fn clone(&self) -> (r: Self)
        ensures
            r@ == self@,
    {
        match self {
            Event::Ready => Event::Ready,
            Event::Call { identity, interface, member } => Event::Call {
                identity: identity.clone(),
                interface: interface.clone(),
                member: member.clone(),
            },
            Event::Grant { identity, token, table } => Event::Grant {
                identity: identity.clone(),
                token: token.clone(),
                table: *table,
            },
            Event::Error(message) => Event::Error(message.clone()),
        }
    }
}

// ---------------------------------------------------------------------------
// What is watched
// ---------------------------------------------------------------------------
/// The table that the use of an interface ends up in, for the interfaces whose
/// use is worth noting.
pub open spec fn watched_table(interface: Text) -> Option<Text> {
    if interface == "org.freedesktop.portal.ScreenCast"@ {
        Some("screencast"@)
    } else if interface == "org.freedesktop.portal.Screenshot"@ {
        Some("screenshot"@)
    } else if interface == "org.freedesktop.portal.RemoteDesktop"@ {
        Some("remote-desktop"@)
    } else if interface == "org.freedesktop.portal.Camera"@ {
        Some("camera"@)
    } else if interface == "org.freedesktop.portal.Location"@ {
        Some("location"@)
    } else if interface == "org.freedesktop.portal.GlobalShortcuts"@ {
        Some("global-shortcuts"@)
    } else if interface == "org.freedesktop.portal.InputCapture"@ {
        Some("input-capture"@)
    } else if interface == "org.freedesktop.portal.Background"@ {
        Some("background"@)
    } else if interface == "org.freedesktop.portal.Device"@ {
        Some("devices"@)
    } else {
        None
    }
}

/// The table that the use of an interface ends up in.
pub fn table_for(interface: &str) -> (r: Option<&'static str>)
    ensures
        text::opt(r) == watched_table(interface@),
{
    if same(interface, "org.freedesktop.portal.ScreenCast") {
        Some("screencast")
    } else if same(interface, "org.freedesktop.portal.Screenshot") {
        Some("screenshot")
    } else if same(interface, "org.freedesktop.portal.RemoteDesktop") {
        Some("remote-desktop")
    } else if same(interface, "org.freedesktop.portal.Camera") {
        Some("camera")
    } else if same(interface, "org.freedesktop.portal.Location") {
        Some("location")
    } else if same(interface, "org.freedesktop.portal.GlobalShortcuts") {
        Some("global-shortcuts")
    } else if same(interface, "org.freedesktop.portal.InputCapture") {
        Some("input-capture")
    } else if same(interface, "org.freedesktop.portal.Background") {
        Some("background")
    } else if same(interface, "org.freedesktop.portal.Device") {
        Some("devices")
    } else {
        None
    }
}

/// A name without the colons at its start.
pub open spec fn without_colons(name: Text) -> Text
    decreases name.len(),
{
    if name.len() > 0 && name[0] == ':' {
        without_colons(name.drop_first())
    } else {
        name
    }
}

/// The fragment that stands for a connection in the paths of its requests.
pub open spec fn fragment_of(unique: Text) -> Text {
    split::swapped(without_colons(unique), '.', '_')
}

/// The fragment that stands for a connection in the paths of its requests:
/// `1_42` for `:1.42`.
pub fn sender_token(unique: &str) -> (r: String)
    ensures
        r@ == fragment_of(unique@),
{
    let chars = chars_of(unique);
    let n = chars.len();
    let mut from: usize = 0;
    proof {
        assert(chars@.skip(0) =~= chars@);
    }
    while from < n && chars[from] == ':'
        invariant
            from <= n,
            n == chars@.len(),
            without_colons(chars@) == without_colons(chars@.skip(from as int)),
        decreases n - from,
    {
        proof {
            assert(chars@.skip(from as int).drop_first() =~= chars@.skip(from + 1));
        }
        from = from + 1;
    }
    let rest = string_of(&chars, from, n);
    proof {
        assert(chars@.skip(from as int) =~= rest@);
    }
    swap_char(rest.as_str(), '.', '_')
}

/// What the path of a request begins with.
pub open spec fn request_prefix() -> Text {
    "/org/freedesktop/portal/desktop/request/"@
}

/// The fragment of the sender in the path of a request.
pub open spec fn request_sender(path: Text) -> Option<Text> {
    if request_prefix().is_prefix_of(path) {
        attrib::unless_empty(
            text::prefix_until(path.skip(request_prefix().len() as int), |c: char| c == '/'),
        )
    } else {
        None
    }
}

/// The fragment of the sender in the path of a request.
pub fn sender_from_request_path(path: &str) -> (r: Option<&str>)
    ensures
        text::opt(r) == request_sender(path@),
{
    if !begins_with(path, "/org/freedesktop/portal/desktop/request/") {
        return None;
    }
    let from: usize = "/org/freedesktop/portal/desktop/request/".unicode_len();
    let chars = chars_of(path);
    let n = chars.len();
    let ghost rest = path@.skip(from as int);
    let mut to: usize = from;
    while to < n && chars[to] != '/'
        invariant
            from <= to <= n,
            n == chars@.len(),
            chars@ == path@,
            rest == path@.skip(from as int),
            forall|k: int| 0 <= k < to - from ==> #[trigger] rest[k] != '/',
        decreases n - to,
    {
        proof {
            assert(rest[to - from] == chars@[to as int]);
        }
        to = to + 1;
    }
    proof {
        if to < n {
            assert(rest[to - from] == chars@[to as int]);
        }
        text::lemma_prefix_until(rest, |c: char| c == '/', to - from);
        assert(rest.take(to - from) =~= path@.subrange(from as int, to as int));
    }
    if to == from {
        None
    } else {
        Some(path.substring_char(from, to))
    }
}

// ---------------------------------------------------------------------------
// The monitor
// ---------------------------------------------------------------------------
/// What the monitor remembers of the connections it has seen.
pub struct Monitor {
    /// The process behind each connection, by the connection's fragment.
    senders: Table<Identity>,
    /// The table of the last portal that each connection used.
    last_table: Table<&'static str>,
}

/// What the monitor remembers, as the contracts see it.
pub struct MonitorView {
    pub senders: Map<Text, IdentityView>,
    pub last_table: Map<Text, Text>,
}

impl View for Monitor {
    type V = MonitorView;

    closed spec fn view(&self) -> MonitorView {
        MonitorView {
            senders: self.senders@.map_values(|identity: Identity| identity@),
            last_table: self.last_table@.map_values(|table: &'static str| table@),
        }
    }
}

/// A call from a connection whose process is not known yet.
#[derive(Debug)]
pub struct Pending {
    fragment: String,
    interface: String,
    member: String,
}

/// A call from an unknown connection, as the contracts see it.
pub struct PendingView {
    pub fragment: Text,
    pub interface: Text,
    pub member: Text,
}

impl View for Pending {
    type V = PendingView;

    closed spec fn view(&self) -> PendingView {
        PendingView {
            fragment: self.fragment@,
            interface: self.interface@,
            member: self.member@,
        }
    }
}

/// What a method call asks for.
pub enum Step {
    /// Nothing.
    Skip,
    /// To find out which process is behind the sender, and to go on with
    /// [`Monitor::on_resolved`].
    Resolve(Pending),
    /// To pass the event on.
    Emit(Event),
}

/// What a method call asks for, as the contracts see it.
pub enum StepView {
    Skip,
    Resolve(PendingView),
    Emit(EventView),
}

impl View for Step {
    type V = StepView;

    open spec fn view(&self) -> StepView {
        match self {
            Step::Skip => StepView::Skip,
            Step::Resolve(pending) => StepView::Resolve(pending@),
            Step::Emit(event) => StepView::Emit(event@),
        }
    }
}

/// A method call on the bus: its interface, its sender and its member, each
/// where the message has one.
pub struct MethodCall<'a> {
    pub interface: Option<&'a str>,
    pub sender: Option<&'a str>,
    pub member: Option<&'a str>,
}

/// The table and the fragment that a call is noted under: none where the
/// interface is not watched, or where there is no sender.
pub open spec fn noted(interface: Option<Text>, sender: Option<Text>) -> Option<(Text, Text)> {
    match (interface, sender) {
        (Some(interface), Some(sender)) => match watched_table(interface) {
            Some(table) => Some((table, fragment_of(sender))),
            None => None,
        },
        _ => None,
    }
}

/// A text, or an empty one where there is none.
pub open spec fn or_empty(text: Option<Text>) -> Text {
    match text {
        Some(text) => text,
        None => Seq::empty(),
    }
}

impl MonitorView {
    /// The monitor after a call: the connection's last table is noted.
    pub open spec fn after_call(self, interface: Option<Text>, sender: Option<Text>) -> MonitorView {
        match noted(interface, sender) {
            Some((table, fragment)) => MonitorView {
                last_table: self.last_table.insert(fragment, table),
                ..self
            },
            None => self,
        }
    }

    /// What a call asks for. The process behind a connection is looked up once
    /// only.
    pub open spec fn step(self, interface: Option<Text>, sender: Option<Text>, member: Option<Text>) -> StepView {
        match noted(interface, sender) {
            Some((_, fragment)) => if self.senders.contains_key(fragment) {
                StepView::Emit(
                    EventView::Call {
                        identity: self.senders[fragment],
                        interface: interface->0,
                        member: or_empty(member),
                    },
                )
            } else {
                StepView::Resolve(
                    PendingView {
                        fragment,
                        interface: interface->0,
                        member: or_empty(member),
                    },
                )
            },
            None => StepView::Skip,
        }
    }

    /// The monitor once the process behind a connection is known.
    pub open spec fn after_lookup(self, pending: PendingView, identity: Option<IdentityView>) -> MonitorView {
        MonitorView { senders: self.senders.insert(pending.fragment, or_nobody(identity)), ..self }
    }

    /// The grant that a response brings: none where the request was refused,
    /// where it carries no token, and where the connection's call was not
    /// seen, as there is nobody to attribute it to.
    pub open spec fn granted(self, path: Text, code: u32, token: Option<Text>) -> Option<EventView> {
        match (request_sender(path), token) {
            (Some(fragment), Some(token)) => if code == 0 && self.senders.contains_key(fragment)
                && self.last_table.contains_key(fragment) {
                Some(
                    EventView::Grant {
                        identity: self.senders[fragment],
                        token,
                        table: self.last_table[fragment],
                    },
                )
            } else {
                None
            },
            _ => None,
        }
    }
}

/// A process, or nobody where it could not be found out.
pub open spec fn or_nobody(identity: Option<IdentityView>) -> IdentityView {
    match identity {
        Some(identity) => identity,
        None => attrib::nobody(),
    }
}

/// The body of a response: its code, and its results by name.
pub struct Response {
    pub code: u32,
    pub results: Table<Variant>,
}

/// The token of the permission in a response.
pub open spec fn restore_token(results: Map<Text, Variant>) -> Option<Text> {
    if results.contains_key("restore_token"@) {
        store::json_form(results["restore_token"@]).text()
    } else {
        None
    }
}

/// A signal on the bus: its interface, its member, its path and its body, each
/// where the message has one that can be read.
pub struct Signal<'a> {
    pub interface: Option<&'a str>,
    pub member: Option<&'a str>,
    pub path: Option<&'a str>,
    pub body: Option<&'a Response>,
}

/// A signal that brings the portal's response to a request.
pub open spec fn is_response(interface: Option<Text>, member: Option<Text>) -> bool {
    interface == Some("org.freedesktop.portal.Request"@) && member == Some("Response"@)
}

/// The event that a signal brings.
pub open spec fn signalled(monitor: MonitorView, signal: Signal) -> Option<EventView> {
    if is_response(text::opt(signal.interface), text::opt(signal.member)) {
        match (signal.path, signal.body) {
            (Some(path), Some(body)) => monitor.granted(
                path@,
                body.code,
                restore_token(body.results@),
            ),
            _ => None,
        }
    } else {
        None
    }
}

/// Whether an optional text is a given one.
fn is_text(text: Option<&str>, wanted: &str) -> (r: bool)
    ensures
        r == (text::opt(text) == Some(wanted@)),
{
    match text {
        Some(text) => same(text, wanted),
        None => false,
    }
}

impl Monitor {
    /// A monitor that has seen nothing yet.
    pub fn new() -> (r: Self)
        ensures
            r@ == (MonitorView { senders: Map::empty(), last_table: Map::empty() }),
    {
        let r = Monitor { senders: Table::new(), last_table: Table::new() };
        proof {
            assert(r@.senders =~= Map::<Text, IdentityView>::empty());
            assert(r@.last_table =~= Map::<Text, Text>::empty());
        }
        r
    }

    /// Takes note of a method call.
    pub fn on_call(&mut self, call: &MethodCall) -> (r: Step)
        ensures
            final(self)@ == old(self)@.after_call(text::opt(call.interface), text::opt(call.sender)),
            r@ == old(self)@.step(
                text::opt(call.interface),
                text::opt(call.sender),
                text::opt(call.member),
            ),
    {
        let interface = match call.interface {
            Some(interface) => interface,
            None => {
                return Step::Skip;
            },
        };
        let table = match table_for(interface) {
            Some(table) => table,
            None => {
                return Step::Skip;
            },
        };
        let sender = match call.sender {
            Some(sender) => sender,
            None => {
                return Step::Skip;
            },
        };
        let member = match call.member {
            Some(member) => member.to_owned(),
            None => String::new(),
        };
        let fragment = sender_token(sender);
        let ghost before = self@;
        self.last_table.insert(fragment.clone(), table);
        proof {
            assert(self@.last_table =~= before.last_table.insert(fragment@, table@));
        }
        match self.senders.get(fragment.as_str()) {
            Some(identity) => Step::Emit(
                Event::Call { identity: identity.clone(), interface: interface.to_owned(), member },
            ),
            None => Step::Resolve(Pending { fragment, interface: interface.to_owned(), member }),
        }
    }

    /// Takes note of which process is behind a connection, and gives the event
    /// of its call. Where the process could not be found out, nobody is noted,
    /// so that it is not asked for again.
    pub fn on_resolved(&mut self, pending: Pending, identity: Option<Identity>) -> (r: Event)
        ensures
            final(self)@ == old(self)@.after_lookup(pending@, text::opt(identity)),
            r@ == (EventView::Call {
                identity: or_nobody(text::opt(identity)),
                interface: pending@.interface,
                member: pending@.member,
            }),
    {
        let identity = match identity {
            Some(identity) => identity,
            None => Identity::default(),
        };
        let ghost before = self@;
        let ghost known = identity@;
        let copy = identity.clone();
        self.senders.insert(pending.fragment, identity);
        proof {
            assert(self@.senders =~= before.senders.insert(pending@.fragment, known));
        }
        Event::Call { identity: copy, interface: pending.interface, member: pending.member }
    }

    /// The event that a signal brings.
    pub fn on_signal(&self, signal: &Signal) -> (r: Option<Event>)
        ensures
            text::opt(r) == signalled(self@, *signal),
    {
        if !is_text(signal.interface, "org.freedesktop.portal.Request") || !is_text(
            signal.member,
            "Response",
        ) {
            return None;
        }
        let path = match signal.path {
            Some(path) => path,
            None => {
                return None;
            },
        };
        let fragment = match sender_from_request_path(path) {
            Some(fragment) => fragment,
            None => {
                return None;
            },
        };
        let body = match signal.body {
            Some(body) => body,
            None => {
                return None;
            },
        };
        if body.code != 0 {
            return None;
        }
        let value = match body.results.get("restore_token") {
            Some(value) => value_to_json(value),
            None => {
                return None;
            },
        };
        let token = match value.as_str() {
            Some(token) => token.to_owned(),
            None => {
                return None;
            },
        };
        match (self.senders.get(fragment), self.last_table.get(fragment)) {
            (Some(identity), Some(table)) => Some(
                Event::Grant { identity: identity.clone(), token, table: *table },
            ),
            _ => None,
        }
    }
}

// ---------------------------------------------------------------------------
// The watch command
// ---------------------------------------------------------------------------
/// How to watch.
#[derive(Debug, Clone, Copy)]
pub struct Options {
    /// One JSON document per event.
    pub json: bool,
    /// Quiet, for running as a service: grants only, never calls.
    pub daemon: bool,
    /// Raise a desktop notification for each grant.
    pub notify: bool,
}

/// The last element of an interface's name.
pub open spec fn short_name(interface: Text) -> Text {
    split::after_last(interface, '.')
}

/// What is printed of a call.
pub open spec fn call_report(
    json: bool,
    identity: IdentityView,
    interface: Text,
    member: Text,
    time: i64,
    clock: Text,
) -> ReportView {
    if json {
        ReportView::Document(
            JsonView::Object(
                Map::empty().insert("event"@, JsonView::Str("call"@)).insert(
                    "time"@,
                    json::int_view(time),
                ).insert("app"@, JsonView::Str(identity.label())).insert(
                    "pid"@,
                    json::pid_view(identity.pid),
                ).insert("exe"@, json::text_view(identity.exe)).insert(
                    "interface"@,
                    JsonView::Str(short_name(interface)),
                ).insert("member"@, JsonView::Str(member)),
            ),
        )
    } else {
        ReportView::Lines(
            seq![
                "  "@ + style::in_dim(clock) + "  "@ + style::in_bold(
                    crate::format::padded_right(identity.label(), 22),
                ) + " "@ + style::in_cyan(short_name(interface)) + "."@ + member,
            ],
        )
    }
}

/// What is printed of a call.
pub fn report_call(
    json: bool,
    identity: &Identity,
    interface: &str,
    member: &str,
    time: i64,
    clock: &str,
) -> (r: Report)
    ensures
        r@ == call_report(json, identity@, interface@, member@, time, clock@),
{
    let short = last_piece(interface, '.');
    if json {
        Report::Document(
            Json::object().with("event", Json::string("call")).with("time", Json::whole(time)).with(
                "app",
                Json::Str(identity.label()),
            ).with("pid", Json::pid_or_null(identity.pid)).with(
                "exe",
                Json::text_or_null(&identity.exe),
            ).with("interface", Json::Str(short)).with("member", Json::string(member)),
        )
    } else {
        let name = pad_right(identity.label().as_str(), 22);
        Report::single(
            "  ".to_owned().concat(dimmed(clock).as_str()).concat("  ").concat(
                bold(name.as_str()).as_str(),
            ).concat(" ").concat(cyan(short.as_str()).as_str()).concat(".").concat(member),
        )
    }
}

/// What is printed of a grant.
pub open spec fn grant_report(
    json: bool,
    identity: IdentityView,
    token: Text,
    table: Text,
    time: i64,
    clock: Text,
) -> ReportView {
    if json {
        ReportView::Document(
            JsonView::Object(
                Map::empty().insert("event"@, JsonView::Str("grant"@)).insert(
                    "time"@,
                    json::int_view(time),
                ).insert("app"@, JsonView::Str(identity.label())).insert(
                    "pid"@,
                    json::pid_view(identity.pid),
                ).insert("exe"@, json::text_view(identity.exe)).insert(
                    "table"@,
                    JsonView::Str(table),
                ).insert("restore_token"@, JsonView::Str(token)),
            ),
        )
    } else {
        ReportView::Lines(
            seq![
                "  "@ + style::in_dim(clock) + "  "@ + style::in_yellow("⚑"@) + " "@
                    + style::in_bold(identity.label()) + " was granted persistent "@
                    + style::in_yellow(table) + " access → token "@ + style::in_dim(token),
            ],
        )
    }
}

/// What is printed of a grant.
pub fn report_grant(
    json: bool,
    identity: &Identity,
    token: &str,
    table: &str,
    time: i64,
    clock: &str,
) -> (r: Report)
    ensures
        r@ == grant_report(json, identity@, token@, table@, time, clock@),
{
    if json {
        Report::Document(
            Json::object().with("event", Json::string("grant")).with("time", Json::whole(time)).with(
                "app",
                Json::Str(identity.label()),
            ).with("pid", Json::pid_or_null(identity.pid)).with(
                "exe",
                Json::text_or_null(&identity.exe),
            ).with("table", Json::string(table)).with("restore_token", Json::string(token)),
        )
    } else {
        Report::single(
            "  ".to_owned().concat(dimmed(clock).as_str()).concat("  ").concat(
                yellow("⚑").as_str(),
            ).concat(" ").concat(bold(identity.label().as_str()).as_str()).concat(
                " was granted persistent ",
            ).concat(yellow(table).as_str()).concat(" access → token ").concat(
                dimmed(token).as_str(),
            ),
        )
    }
}

/// What is to be done about an event.
pub struct Reaction {
    pub report: Option<Report>,
    pub notification: Option<Notification>,
    /// Whether the attributions are to be saved at once.
    pub save: bool,
    /// Why to stop.
    pub failure: Option<String>,
}

/// What is to be done about an event, as the contracts see it.
pub struct ReactionView {
    pub report: Option<ReportView>,
    pub notification: Option<NotificationView>,
    pub save: bool,
    pub failure: Option<Text>,
}

impl View for Reaction {
    type V = ReactionView;

    open spec fn view(&self) -> ReactionView {
        ReactionView {
            report: text::opt(self.report),
            notification: text::opt(self.notification),
            save: self.save,
            failure: text::opt(self.failure),
        }
    }
}

/// What is to be done about an event. A call is printed, but not by a service.
/// A grant is printed, announced where that is wanted, and saved at once by a
/// service, which nobody stops in order to save.
pub open spec fn reaction(options: Options, event: EventView, time: i64, clock: Text) -> ReactionView {
    match event {
        EventView::Ready => ReactionView {
            report: None,
            notification: None,
            save: false,
            failure: None,
        },
        EventView::Call { identity, interface, member } => ReactionView {
            report: if options.daemon {
                None
            } else {
                Some(call_report(options.json, identity, interface, member, time, clock))
            },
            notification: None,
            save: false,
            failure: None,
        },
        EventView::Grant { identity, token, table } => ReactionView {
            report: Some(grant_report(options.json, identity, token, table, time, clock)),
            notification: if options.notify {
                Some(notify::grant_notification(identity, table, token))
            } else {
                None
            },
            save: options.daemon,
            failure: None,
        },
        EventView::Error(message) => ReactionView {
            report: None,
            notification: None,
            save: false,
            failure: Some(message),
        },
    }
}

/// The attributions after an event: a grant is noted, nothing else is.
pub open spec fn attributions_after(cache: Map<Text, RecordView>, event: EventView, time: i64) -> Map<
    Text,
    RecordView,
> {
    match event {
        EventView::Grant { identity, token, table } => cache.insert(
            token,
            attrib::sighted(cache, token, identity, table, time),
        ),
        _ => cache,
    }
}

/// The watch command: the attributions, and whether they have changed.
pub struct Watcher {
    pub cache: Cache,
    pub dirty: bool,
}

impl Watcher {
    /// Starts from the attributions that were saved.
    pub fn new(cache: Cache) -> (r: Self)
        ensures
            r.cache == cache,
            !r.dirty,
    {
        Watcher { cache, dirty: false }
    }

    /// What is printed before the first event.
    pub fn opening(options: Options) -> (r: Option<String>)
        ensures
            text::opt(r) == if options.json || options.daemon {
                None
            } else {
                Some(
                    style::in_bold("wayward"@)
                        + " listening to the portal. Ctrl-C to stop and save.\n"@,
                )
            },
    {
        if options.json || options.daemon {
            None
        } else {
            Some(bold("wayward").concat(" listening to the portal. Ctrl-C to stop and save.\n"))
        }
    }

    /// Takes an event that came at a given time.
    pub fn on_event(&mut self, options: Options, event: &Event, time: i64, clock: &str) -> (r:
        Reaction)
        ensures
            r@ == reaction(options, event@, time, clock@),
            final(self).cache@ == attributions_after(old(self).cache@, event@, time),
            final(self).dirty == (old(self).dirty || event@ is Grant),
    {
        let nothing = Reaction { report: None, notification: None, save: false, failure: None };
        match event {
            Event::Ready => nothing,
            Event::Call { identity, interface, member } => if options.daemon {
                nothing
            } else {
                Reaction {
                    report: Some(
                        report_call(
                            options.json,
                            identity,
                            interface.as_str(),
                            member.as_str(),
                            time,
                            clock,
                        ),
                    ),
                    notification: None,
                    save: false,
                    failure: None,
                }
            },
            Event::Grant { identity, token, table } => {
                self.cache.observe(token.as_str(), identity.clone(), table, time);
                self.dirty = true;
                Reaction {
                    report: Some(
                        report_grant(options.json, identity, token.as_str(), table, time, clock),
                    ),
                    notification: if options.notify {
                        Some(grant(identity, table, token.as_str()))
                    } else {
                        None
                    },
                    save: options.daemon,
                    failure: None,
                }
            },
            Event::Error(message) => Reaction {
                report: None,
                notification: None,
                save: false,
                failure: Some(message.clone()),
            },
        }
    }

    /// Takes an event that has just come.
    pub fn react(&mut self, options: Options, event: &Event) -> (r: Reaction)
        ensures
            exists|time: i64, clock: Text|
                crate::clock::tells_clock(clock) && r@ == #[trigger] reaction(
                    options,
                    event@,
                    time,
                    clock,
                ) && final(self).cache@ == attributions_after(old(self).cache@, event@, time),
            final(self).dirty == (old(self).dirty || event@ is Grant),
    {
        let time: i64 = now();
        let hour = clock();
        self.on_event(options, event, time, hour.as_str())
    }

    /// What is printed after the last event, once the attributions have been
    /// saved to `path`.
    pub fn closing(&self, options: Options, path: &str) -> (r: Option<String>)
        ensures
            text::opt(r) == if options.json || options.daemon {
                None
            } else {
                Some(
                    "\n"@ + style::in_green("✓"@) + " "@ + text::dec(
                        self.cache.tokens.keys().len(),
                    ) + " attributions saved to "@ + path@,
                )
            },
    {
        if options.json || options.daemon {
            None
        } else {
            Some(
                "\n".to_owned().concat(green("✓").as_str()).concat(" ").concat(
                    decimal(self.cache.tokens.len() as u64).as_str(),
                ).concat(" attributions saved to ").concat(path),
            )
        }
    }
}

/// A service prints grants only, never calls; and whatever is printed, every
/// grant is on record afterwards, attributed to whoever asked.
pub proof fn law_every_grant_is_recorded(
    options: Options,
    cache: Map<Text, RecordView>,
    event: EventView,
    time: i64,
    clock: Text,
)
    ensures
        options.daemon ==> (reaction(options, event, time, clock).report is Some <==> event is Grant),
        event matches EventView::Grant { identity, token, table } ==> {
            &&& attributions_after(cache, event, time).contains_key(token)
            &&& attributions_after(cache, event, time)[token].identity == identity
            &&& options.daemon ==> reaction(options, event, time, clock).save
        },
        !(event is Grant) ==> attributions_after(cache, event, time) == cache,
{
}

// ---------------------------------------------------------------------------
// What holds of the correlation
// ---------------------------------------------------------------------------
/// A prefix without slashes is what stands before the first slash.
proof fn lemma_fragment_in_path(fragment: Text, handle: Text)
    requires
        fragment.len() > 0,
        !fragment.contains('/'),
    ensures
        request_sender(request_prefix() + fragment + "/"@ + handle) == Some(fragment),
{
    reveal_strlit("/");
    let path = request_prefix() + fragment + "/"@ + handle;
    let rest = path.skip(request_prefix().len() as int);
    assert(path.take(request_prefix().len() as int) =~= request_prefix());
    assert(request_prefix().is_prefix_of(path));
    assert(rest =~= fragment + "/"@ + handle);
    assert forall|i: int| 0 <= i < fragment.len() implies rest[i] != '/' by {
        assert(rest[i] == fragment[i]);
    }
    assert(rest[fragment.len() as int] == '/');
    text::lemma_prefix_until(rest, |c: char| c == '/', fragment.len() as int);
    assert(rest.take(fragment.len() as int) =~= fragment);
}

/// The correlation closes the circle: after a call to a watched portal, the
/// response that comes from the path of one of the sender's requests is
/// attributed to the process behind the sender, and to the portal's table.
pub proof fn law_correlation_closes(
    monitor: MonitorView,
    interface: Text,
    sender: Text,
    member: Option<Text>,
    identity: Option<IdentityView>,
    handle: Text,
    token: Text,
)
    requires
        watched_table(interface) is Some,
        fragment_of(sender).len() > 0,
        !fragment_of(sender).contains('/'),
    ensures
        ({
            let called = monitor.after_call(Some(interface), Some(sender));
            let path = request_prefix() + fragment_of(sender) + "/"@ + handle;
            match monitor.step(Some(interface), Some(sender), member) {
                StepView::Skip => false,
                StepView::Emit(event) => event matches EventView::Call { identity: known, .. }
                    && called.granted(path, 0, Some(token)) == Some(
                    EventView::Grant { identity: known, token, table: watched_table(interface)->0 },
                ),
                StepView::Resolve(pending) => called.after_lookup(pending, identity).granted(
                    path,
                    0,
                    Some(token),
                ) == Some(
                    EventView::Grant {
                        identity: or_nobody(identity),
                        token,
                        table: watched_table(interface)->0,
                    },
                ),
            }
        }),
{
    lemma_fragment_in_path(fragment_of(sender), handle);
}

/// Every unique name that the bus admits makes a fragment that the path of a
/// request gives back: it is not empty, and has no slash.
pub proof fn law_unique_names_make_fragments(name: Text, handle: Text)
    requires
        sessions::admissible(name),
    ensures
        fragment_of(name).len() > 0,
        !fragment_of(name).contains('/'),
        request_sender(request_prefix() + fragment_of(name) + "/"@ + handle) == Some(
            fragment_of(name),
        ),
{
    let rest = name.drop_first();
    let elements = split::pieces(rest, '.');
    split::lemma_piece_chars(rest, '.', |c: char| sessions::name_char(c));
    assert(elements[0].len() > 0);
    if rest.len() == 0 {
        assert(elements[0].len() == 0);
    }
    assert(rest[0] == '.' || sessions::name_char(rest[0]));
    assert(name[1] == rest[0]);
    lemma_one_colon(name);
    let fragment = fragment_of(name);
    assert forall|k: int| 0 <= k < fragment.len() implies fragment[k] != '/' by {
        assert(rest[k] == '.' || sessions::name_char(rest[k]));
    }
    lemma_fragment_in_path(fragment, handle);
}

/// Nothing is attributed that was not granted, and nothing to a connection
/// whose call was not seen.
pub proof fn law_no_grant_out_of_nothing(monitor: MonitorView, path: Text, code: u32, token: Option<Text>)
    ensures
        code != 0 ==> monitor.granted(path, code, token) is None,
        request_sender(path) is Some && !monitor.senders.contains_key(request_sender(path)->0)
            ==> monitor.granted(path, code, token) is None,
        request_sender(path) is None ==> monitor.granted(path, code, token) is None,
{
}

/// A call of one connection changes nothing about what another is granted.
pub proof fn law_calls_do_not_mix(
    monitor: MonitorView,
    interface: Option<Text>,
    sender: Text,
    path: Text,
    code: u32,
    token: Option<Text>,
)
    requires
        request_sender(path) != Some(fragment_of(sender)),
    ensures
        monitor.after_call(interface, Some(sender)).granted(path, code, token) == monitor.granted(
            path,
            code,
            token,
        ),
{
}

/// The process behind a connection is looked up once: after the lookup, no
/// call of that connection asks for another, whatever the lookup gave.
pub proof fn law_one_lookup_for_each_connection(
    monitor: MonitorView,
    pending: PendingView,
    identity: Option<IdentityView>,
    interface: Option<Text>,
    sender: Text,
    member: Option<Text>,
)
    requires
        fragment_of(sender) == pending.fragment,
    ensures
        !(monitor.after_lookup(pending, identity).step(interface, Some(sender), member) is Resolve),
{
}

proof fn lemma_one_colon(name: Text)
    requires
        name.len() > 0,
        name[0] == ':',
        name.len() > 1 ==> name[1] != ':',
    ensures
        without_colons(name) == name.drop_first(),
{
    let rest = name.drop_first();
    assert(rest.len() > 0 ==> rest[0] == name[1]);
    assert(without_colons(rest) == rest);
}

/// From a unique name to its fragment and back: the name comes out again. A
/// unique name is a colon followed by numbers with dots between them; what
/// counts is that it has a single colon at its start and no underscore.
pub proof fn law_unique_name_round_trip(name: Text)
    requires
        name.len() > 0,
        name[0] == ':',
        name.len() > 1 ==> name[1] != ':',
        !name.contains('_'),
    ensures
        sessions::connection_name(fragment_of(name)) == name,
{
    lemma_one_colon(name);
    reveal_strlit(":");
    let back = sessions::connection_name(fragment_of(name));
    assert(back.len() == name.len());
    assert forall|i: int| 0 <= i < name.len() implies back[i] == name[i] by {
        if i > 0 {
            assert(name.contains(name[i]));
            assert(name.drop_first()[i - 1] == name[i]);
        }
    }
    assert(back =~= name);
}

/// From a fragment to the unique name and back: the fragment comes out again,
/// where it does not begin with a colon and has no dot.
pub proof fn law_fragment_round_trip(fragment: Text)
    requires
        fragment.len() > 0 ==> fragment[0] != ':',
        !fragment.contains('.'),
    ensures
        fragment_of(sessions::connection_name(fragment)) == fragment,
{
    reveal_strlit(":");
    let name = sessions::connection_name(fragment);
    assert(name.drop_first() =~= split::swapped(fragment, '_', '.'));
    if fragment.len() > 0 {
        assert(name[1] == split::swapped(fragment, '_', '.')[0]);
    }
    lemma_one_colon(name);
    let back = fragment_of(name);
    assert forall|i: int| 0 <= i < fragment.len() implies back[i] == fragment[i] by {
        assert(fragment.contains(fragment[i]));
    }
    assert(back =~= fragment);
}

/// What is printed of an event for programs holds no double.
pub proof fn law_events_are_plain(options: Options, event: EventView, time: i64, clock: Text)
    ensures
        match reaction(options, event, time, clock).report {
            Some(ReportView::Document(document)) => json::plain(document),
            _ => true,
        },
{
    broadcast use crate::json::group_plain;

}

/// To look up one connection changes nothing about the others: what they are
/// granted, who is behind them, and what their calls ask for. The connection
/// itself is known from then on, and as nobody where the lookup found nothing.
pub proof fn law_lookups_do_not_mix(
    monitor: MonitorView,
    pending: PendingView,
    identity: Option<IdentityView>,
    path: Text,
    code: u32,
    token: Option<Text>,
    other: Text,
)
    ensures
        ({
            let after = monitor.after_lookup(pending, identity);
            &&& request_sender(path) != Some(pending.fragment) ==> after.granted(path, code, token)
                == monitor.granted(path, code, token)
            &&& other != pending.fragment ==> after.senders.contains_key(other)
                == monitor.senders.contains_key(other)
            &&& other != pending.fragment && monitor.senders.contains_key(other)
                ==> after.senders[other] == monitor.senders[other]
            &&& after.last_table == monitor.last_table
            &&& after.senders.contains_key(pending.fragment)
            &&& after.senders[pending.fragment] == match identity {
                Some(known) => known,
                None => IdentityView { pid: None, exe: None, cmdline: None, comm: None },
            }
        }),
{
}

/// A lookup leaves open nothing about the calls of other connections.
pub proof fn law_lookups_leave_other_calls_alone(
    monitor: MonitorView,
    pending: PendingView,
    identity: Option<IdentityView>,
    interface: Option<Text>,
    sender: Text,
    member: Option<Text>,
)
    requires
        fragment_of(sender) != pending.fragment,
    ensures
        monitor.after_lookup(pending, identity).step(interface, Some(sender), member) == monitor.step(
            interface,
            Some(sender),
            member,
        ),
{
}

/// A call is noted for its own connection alone, and forgets nobody: whoever was
/// known stays known, and the last portal of every other connection stays.
pub proof fn law_calls_forget_nobody(
    monitor: MonitorView,
    interface: Option<Text>,
    sender: Option<Text>,
    other: Text,
)
    ensures
        ({
            let after = monitor.after_call(interface, sender);
            &&& after.senders == monitor.senders
            &&& !(sender matches Some(name) && fragment_of(name) == other)
                ==> after.last_table.contains_key(other) == monitor.last_table.contains_key(other)
            &&& !(sender matches Some(name) && fragment_of(name) == other)
                && monitor.last_table.contains_key(other) ==> after.last_table[other]
                == monitor.last_table[other]
            &&& sender is None || interface is None ==> after == monitor
        }),
{
}

/// While the user thinks about one request, another connection may call and be
/// looked up: the grant of the first still goes to the process behind it and to
/// the table of its portal.
pub proof fn law_grants_survive_other_calls(
    monitor: MonitorView,
    sender: Text,
    handle: Text,
    token: Text,
    other: Text,
    other_interface: Option<Text>,
    pending: PendingView,
    identity: Option<IdentityView>,
)
    requires
        monitor.senders.contains_key(fragment_of(sender)),
        monitor.last_table.contains_key(fragment_of(sender)),
        fragment_of(sender).len() > 0,
        !fragment_of(sender).contains('/'),
        fragment_of(other) != fragment_of(sender),
        pending.fragment == fragment_of(other),
    ensures
        monitor.after_call(other_interface, Some(other)).after_lookup(pending, identity).granted(
            "/org/freedesktop/portal/desktop/request/"@ + fragment_of(sender) + "/"@ + handle,
            0,
            Some(token),
        ) == Some(
            EventView::Grant {
                identity: monitor.senders[fragment_of(sender)],
                token,
                table: monitor.last_table[fragment_of(sender)],
            },
        ),
{
    lemma_fragment_in_path(fragment_of(sender), handle);
}

/// The portals that are watched, and the table that each of them files its
/// permissions in; no other interface is.
#[verifier::rlimit(50)]
pub proof fn law_what_is_watched(interface: Text)
    ensures
        interface == "org.freedesktop.portal.ScreenCast"@ ==> watched_table(interface) == Some("screencast"@),
        interface == "org.freedesktop.portal.Screenshot"@ ==> watched_table(interface) == Some("screenshot"@),
        interface == "org.freedesktop.portal.RemoteDesktop"@ ==> watched_table(interface) == Some("remote-desktop"@),
        interface == "org.freedesktop.portal.Camera"@ ==> watched_table(interface) == Some("camera"@),
        interface == "org.freedesktop.portal.Location"@ ==> watched_table(interface) == Some("location"@),
        interface == "org.freedesktop.portal.GlobalShortcuts"@ ==> watched_table(interface) == Some("global-shortcuts"@),
        interface == "org.freedesktop.portal.InputCapture"@ ==> watched_table(interface) == Some("input-capture"@),
        interface == "org.freedesktop.portal.Background"@ ==> watched_table(interface) == Some("background"@),
        interface == "org.freedesktop.portal.Device"@ ==> watched_table(interface) == Some("devices"@),
        interface != "org.freedesktop.portal.ScreenCast"@ && interface != "org.freedesktop.portal.Screenshot"@ && interface != "org.freedesktop.portal.RemoteDesktop"@ && interface != "org.freedesktop.portal.Camera"@ && interface != "org.freedesktop.portal.Location"@ && interface != "org.freedesktop.portal.GlobalShortcuts"@ && interface != "org.freedesktop.portal.InputCapture"@ && interface != "org.freedesktop.portal.Background"@ && interface != "org.freedesktop.portal.Device"@ ==> watched_table(interface) is None,
{
    reveal_strlit("org.freedesktop.portal.ScreenCast");
    reveal_strlit("org.freedesktop.portal.Screenshot");
    reveal_strlit("org.freedesktop.portal.RemoteDesktop");
    reveal_strlit("org.freedesktop.portal.Camera");
    reveal_strlit("org.freedesktop.portal.Location");
    reveal_strlit("org.freedesktop.portal.GlobalShortcuts");
    reveal_strlit("org.freedesktop.portal.InputCapture");
    reveal_strlit("org.freedesktop.portal.Background");
    reveal_strlit("org.freedesktop.portal.Device");
    assert("org.freedesktop.portal.ScreenCast"@.len() == 33);
    assert("org.freedesktop.portal.Screenshot"@.len() == 33);
    assert("org.freedesktop.portal.RemoteDesktop"@.len() == 36);
    assert("org.freedesktop.portal.Camera"@.len() == 29);
    assert("org.freedesktop.portal.Location"@.len() == 31);
    assert("org.freedesktop.portal.GlobalShortcuts"@.len() == 38);
    assert("org.freedesktop.portal.InputCapture"@.len() == 35);
    assert("org.freedesktop.portal.Background"@.len() == 33);
    assert("org.freedesktop.portal.Device"@.len() == 29);
    assert("org.freedesktop.portal.ScreenCast"@[29] == 'C');
    assert("org.freedesktop.portal.Screenshot"@[29] == 's');
    assert("org.freedesktop.portal.ScreenCast"@[23] == 'S');
    assert("org.freedesktop.portal.Background"@[23] == 'B');
    assert("org.freedesktop.portal.Screenshot"@[23] == 'S');
    assert("org.freedesktop.portal.Camera"@[23] == 'C');
    assert("org.freedesktop.portal.Device"@[23] == 'D');
}

/// A call to a portal that is not watched, or without a sender, asks for
/// nothing. A call to a watched one gives an event with its own interface and
/// member, from whoever is known to be behind its sender, or asks who that is.
pub proof fn law_what_a_call_asks_for(
    monitor: MonitorView,
    interface: Text,
    sender: Option<Text>,
    member: Option<Text>,
)
    ensures
        watched_table(interface) is None || sender is None ==> monitor.step(
            Some(interface),
            sender,
            member,
        ) is Skip,
        watched_table(interface) is Some && sender is Some ==> {
            let fragment = fragment_of(sender->0);
            let said = match member {
                Some(member) => member,
                None => ""@,
            };
            monitor.step(Some(interface), sender, member) == if monitor.senders.contains_key(
                fragment,
            ) {
                StepView::Emit(
                    EventView::Call { identity: monitor.senders[fragment], interface, member: said },
                )
            } else {
                StepView::Resolve(PendingView { fragment, interface, member: said })
            }
        },
{
    reveal_strlit("");
    assert(""@ =~= Seq::<char>::empty());
}

/// The sender in the path of a request is what stands between the request's root
/// and the next slash, and is not empty.
pub proof fn law_where_the_sender_stands(path: Text, fragment: Text)
    requires
        request_sender(path) == Some(fragment),
    ensures
        fragment.len() > 0,
        !fragment.contains('/'),
        ("/org/freedesktop/portal/desktop/request/"@ + fragment).is_prefix_of(path),
        ({
            let end = "/org/freedesktop/portal/desktop/request/"@.len() + fragment.len();
            end == path.len() || path[end as int] == '/'
        }),
{
    let root = "/org/freedesktop/portal/desktop/request/"@;
    let rest = path.skip(root.len() as int);
    lemma_until_slash(rest);
    assert(path.take((root.len() + fragment.len()) as int) =~= root + fragment);
}

/// What comes before the first slash.
proof fn lemma_until_slash(s: Text)
    ensures
        ({
            let head = text::prefix_until(s, |c: char| c == '/');
            &&& head.len() <= s.len()
            &&& head == s.take(head.len() as int)
            &&& !head.contains('/')
            &&& head.len() == s.len() || s[head.len() as int] == '/'
        }),
    decreases s.len(),
{
    let stop = |c: char| c == '/';
    let head = text::prefix_until(s, stop);
    if s.len() > 0 && s[0] != '/' {
        let rest = s.drop_first();
        lemma_until_slash(rest);
        let tail = text::prefix_until(rest, stop);
        assert(head =~= s.take(head.len() as int));
        assert forall|k: int| 0 <= k < head.len() implies head[k] != '/' by {
            if k > 0 {
                assert(tail[k - 1] == head[k]);
                assert(tail.contains(tail[k - 1]));
            }
        }
    } else {
        assert(head =~= s.take(0));
    }
}

/// A grant is announced exactly where the portal answers a request with a yes
/// and a token, to a connection whose call was seen; and it is announced as
/// that connection's, with that token.
pub proof fn law_what_makes_a_grant(monitor: MonitorView, signal: Signal)
    ensures
        ({
            let answered = match (signal.interface, signal.member, signal.path, signal.body) {
                (Some(interface), Some(member), Some(path), Some(body)) => {
                    &&& interface@ == "org.freedesktop.portal.Request"@
                    &&& member@ == "Response"@
                    &&& body.code == 0
                    &&& body.results@.contains_key("restore_token"@)
                    &&& store::json_form(body.results@["restore_token"@]) is Str
                    &&& request_sender(path@) matches Some(fragment)
                        && monitor.senders.contains_key(fragment) && monitor.last_table.contains_key(
                        fragment,
                    )
                },
                _ => false,
            };
            match signalled(monitor, signal) {
                Some(EventView::Grant { identity, token, table }) => {
                    let fragment = request_sender(signal.path->0@)->0;
                    &&& answered
                    &&& identity == monitor.senders[fragment]
                    &&& table == monitor.last_table[fragment]
                    &&& store::json_form(signal.body->0.results@["restore_token"@]) == JsonView::Str(
                        token,
                    )
                },
                Some(_) => false,
                None => !answered,
            }
        }),
{
}

/// What is done about an event. A call is printed unless a service runs; a grant
/// is always printed, is announced exactly where that is wanted, and is saved at
/// once exactly by a service; an error stops the watch with its own words.
pub proof fn law_what_is_done_about_events(
    options: Options,
    event: EventView,
    time: i64,
    clock: Text,
)
    ensures
        ({
            let done = reaction(options, event, time, clock);
            &&& done.report is Some <==> event is Grant || (event is Call && !options.daemon)
            &&& done.notification is Some <==> event is Grant && options.notify
            &&& done.save <==> event is Grant && options.daemon
            &&& done.failure == match event {
                EventView::Error(message) => Some(message),
                _ => None,
            }
            &&& done.report matches Some(ReportView::Document(_)) ==> options.json
            &&& done.report matches Some(ReportView::Lines(_)) ==> !options.json
        }),
{
}

/// What is on record after an event: a grant notes its token, its process, its
/// table and its time, keeps the table and the time of an earlier sighting, and
/// touches no other token; any other event notes nothing.
pub proof fn law_what_is_on_record(
    cache: Map<Text, RecordView>,
    event: EventView,
    time: i64,
    other: Text,
)
    ensures
        ({
            let after = attributions_after(cache, event, time);
            match event {
                EventView::Grant { identity, token, table } => {
                    &&& after.contains_key(token)
                    &&& after[token].identity == identity
                    &&& after[token].last_seen == time
                    &&& !cache.contains_key(token) ==> after[token].table == table
                        && after[token].first_seen == time
                    &&& cache.contains_key(token) ==> after[token].table == cache[token].table
                        && after[token].first_seen == cache[token].first_seen
                    &&& other != token ==> after.contains_key(other) == cache.contains_key(other)
                    &&& other != token && cache.contains_key(other) ==> after[other] == cache[other]
                },
                _ => after == cache,
            }
        }),
{
}

/// What a program reads of a call and of a grant, field by field.
#[verifier::rlimit(50)]
pub proof fn law_events_for_programs(
    identity: IdentityView,
    interface: Text,
    member: Text,
    token: Text,
    table: Text,
    time: i64,
    clock: Text,
)
    ensures
        call_report(true, identity, interface, member, time, clock) matches ReportView::Document(
            call,
        ) && {
            &&& call.field("event"@) == Some(JsonView::Str("call"@))
            &&& call.field("time"@) matches Some(seen) && seen.signed() == Some(time)
            &&& call.field("app"@) == Some(JsonView::Str(identity.label()))
            &&& call.field("pid"@) == Some(
                match identity.pid {
                    Some(pid) => JsonView::Unsigned(pid as u64),
                    None => JsonView::Null,
                },
            )
            &&& call.field("exe"@) == Some(
                match identity.exe {
                    Some(exe) => JsonView::Str(exe),
                    None => JsonView::Null,
                },
            )
            &&& call.field("interface"@) == Some(JsonView::Str(split::after_last(interface, '.')))
            &&& call.field("member"@) == Some(JsonView::Str(member))
        },
        grant_report(true, identity, token, table, time, clock) matches ReportView::Document(grant)
            && {
            &&& grant.field("event"@) == Some(JsonView::Str("grant"@))
            &&& grant.field("time"@) matches Some(seen) && seen.signed() == Some(time)
            &&& grant.field("app"@) == Some(JsonView::Str(identity.label()))
            &&& grant.field("pid"@) == Some(
                match identity.pid {
                    Some(pid) => JsonView::Unsigned(pid as u64),
                    None => JsonView::Null,
                },
            )
            &&& grant.field("exe"@) == Some(
                match identity.exe {
                    Some(exe) => JsonView::Str(exe),
                    None => JsonView::Null,
                },
            )
            &&& grant.field("table"@) == Some(JsonView::Str(table))
            &&& grant.field("restore_token"@) == Some(JsonView::Str(token))
        },
{
    reveal_strlit("event");
    reveal_strlit("time");
    reveal_strlit("app");
    reveal_strlit("pid");
    reveal_strlit("exe");
    reveal_strlit("interface");
    reveal_strlit("member");
    reveal_strlit("table");
    reveal_strlit("restore_token");
    assert("event"@.len() == 5);
    assert("time"@.len() == 4);
    assert("app"@.len() == 3);
    assert("pid"@.len() == 3);
    assert("exe"@.len() == 3);
    assert("interface"@.len() == 9);
    assert("member"@.len() == 6);
    assert("table"@.len() == 5);
    assert("restore_token"@.len() == 13);
    assert("event"@[0] == 'e');
    assert("table"@[0] == 't');
    assert("app"@[0] == 'a');
    assert("pid"@[0] == 'p');
    assert("exe"@[0] == 'e');
}

/// What people read of a call and of a grant: the time, who it was, and what they
/// did or were given.
#[verifier::rlimit(50)]
pub proof fn law_events_for_people(
    identity: IdentityView,
    interface: Text,
    member: Text,
    token: Text,
    table: Text,
    time: i64,
    clock: Text,
)
    ensures
        call_report(false, identity, interface, member, time, clock) matches ReportView::Lines(call)
            && call.len() == 1 && split::occurs_in(call[0], clock) && split::occurs_in(
            call[0],
            identity.label(),
        ) && split::occurs_in(call[0], split::after_last(interface, '.')) && member.is_suffix_of(
            call[0],
        ),
        grant_report(false, identity, token, table, time, clock) matches ReportView::Lines(grant)
            && grant.len() == 1 && split::occurs_in(grant[0], clock) && split::occurs_in(
            grant[0],
            identity.label(),
        ) && split::occurs_in(grant[0], table) && split::occurs_in(grant[0], token),
{
    broadcast use crate::split::group_occurs;

}

} // verus!
