//! Attribution after the fact, from the journal.
//!
//! A permission that was granted while nobody was listening can no longer be
//! attributed through the bus. But its table may keep the time of the grant,
//! and applications tend to write to the journal while they do what they have
//! just asked permission for. Who wrote around that time, and what, gives
//! candidates with a level of confidence, never certainties.
use vstd::prelude::*;
use crate::format::{from_utf8_lossy, parse_i64, parse_u32, to_lowercase};
use crate::json::{self, Json, JsonView};
use crate::number::{self, difference, divided, magnitude, sum};
use crate::order::{self, order_of};
use crate::split::{self, begins_with, holds, lines};
use crate::store;
use crate::table::Table;
use crate::text::{self, copy_opt, same, signed_decimal, trim, Text};

verus! {

/// How strong the evidence for a candidate is.
#[derive(Debug, Clone, Copy, PartialEq, Eq, PartialOrd, Ord, Structural)]
pub enum Confidence {
    Low,
    Medium,
    High,
}

/// The name of a level of confidence.
pub open spec fn confidence_label(confidence: Confidence) -> Text {
    match confidence {
        Confidence::High => "high"@,
        Confidence::Medium => "medium"@,
        Confidence::Low => "low"@,
    }
}

/// A level of confidence as a number: the higher, the stronger.
pub open spec fn confidence_level(confidence: Confidence) -> int {
    match confidence {
        Confidence::High => 2,
        Confidence::Medium => 1,
        Confidence::Low => 0,
    }
}

impl Confidence {
    /// The name of the level.
    pub fn label(self) -> (r: &'static str)
        ensures
            r@ == confidence_label(self),
    {
        match self {
            Confidence::High => "high",
            Confidence::Medium => "medium",
            Confidence::Low => "low",
        }
    }

    /// The level as a number.
    pub fn level(self) -> (r: u8)
        ensures
            r == confidence_level(self),
    {
        match self {
            Confidence::High => 2,
            Confidence::Medium => 1,
            Confidence::Low => 0,
        }
    }
}

/// An application that may have asked for the permission.
#[derive(Debug)]
pub struct Candidate {
    pub label: String,
    pub exe: Option<String>,
    pub pid: Option<u32>,
    pub confidence: Confidence,
    /// Seconds from the grant to the line that counts most.
    pub offset: i64,
    /// The line of the journal that the attribution rests on.
    pub evidence: String,
    /// How many lines the process wrote in the window.
    pub lines: usize,
}

/// A candidate as the contracts see it.
pub struct CandidateView {
    pub label: Text,
    pub exe: Option<Text>,
    pub pid: Option<u32>,
    pub confidence: Confidence,
    pub offset: i64,
    pub evidence: Text,
    pub lines: nat,
}

impl View for Candidate {
    type V = CandidateView;

    open spec fn view(&self) -> CandidateView {
        CandidateView {
            label: self.label@,
            exe: text::opt(self.exe),
            pid: self.pid,
            confidence: self.confidence,
            offset: self.offset,
            evidence: self.evidence@,
            lines: self.lines as nat,
        }
    }
}

impl Clone for Candidate {
    fn clone(&self) -> (r: Self)
        ensures
            r@ == self@,
    {
        Candidate {
            label: self.label.clone(),
            exe: copy_opt(&self.exe),
            pid: self.pid,
            confidence: self.confidence,
            offset: self.offset,
            evidence: self.evidence.clone(),
            lines: self.lines,
        }
    }
}

/// What was found out about a permission.
#[derive(Debug)]
pub struct Resolution {
    pub token: String,
    pub table: String,
    pub issued_at: Option<i64>,
    /// The best comes first.
    pub candidates: Vec<Candidate>,
}

/// What was found out about a permission, as the contracts see it.
pub struct ResolutionView {
    pub token: Text,
    pub table: Text,
    pub issued_at: Option<i64>,
    pub candidates: Seq<CandidateView>,
}

impl View for Resolution {
    type V = ResolutionView;

    open spec fn view(&self) -> ResolutionView {
        ResolutionView {
            token: self.token@,
            table: self.table@,
            issued_at: self.issued_at,
            candidates: text::views(self.candidates@),
        }
    }
}

impl Clone for Resolution {
    fn clone(&self) -> (r: Self)
        ensures
            r@ == self@,
    {
        broadcast use crate::text::group_views;

        let ghost all = self@.candidates;
        let mut candidates: Vec<Candidate> = Vec::new();
        let mut i: usize = 0;
        while i < self.candidates.len()
            invariant
                i <= self.candidates@.len(),
                all == self@.candidates,
                text::views(candidates@) == all.take(i as int),
            decreases self.candidates@.len() - i,
        {
            proof {
                assert(all.take(i + 1) =~= all.take(i as int).push(self.candidates@[i as int]@));
            }
            candidates.push(self.candidates[i].clone());
            i = i + 1;
        }
        proof {
            assert(all.take(i as int) =~= all);
        }
        Resolution {
            token: self.token.clone(),
            table: self.table.clone(),
            issued_at: self.issued_at,
            candidates,
        }
    }
}

impl ResolutionView {
    /// The first candidate, where the confidence in it reaches `min`.
    pub open spec fn best(self, min: Confidence) -> Option<CandidateView> {
        if self.candidates.len() > 0 && confidence_level(self.candidates[0].confidence)
            >= confidence_level(min) {
            Some(self.candidates[0])
        } else {
            None
        }
    }
}

impl Resolution {
    /// The candidate to attribute the permission to, if one reaches `min`.
    pub fn best(&self, min: Confidence) -> (r: Option<&Candidate>)
        ensures
            match r {
                Some(candidate) => self@.best(min) == Some(candidate@),
                None => self@.best(min) is None,
            },
    {
        if self.candidates.len() > 0 && self.candidates[0].confidence.level() >= min.level() {
            Some(&self.candidates[0])
        } else {
            None
        }
    }
}

// ---------------------------------------------------------------------------
// What to look for
// ---------------------------------------------------------------------------
/// The command name of a process that turns up around almost any event and is
/// never the one that asks. The kernel cuts a command name off after fifteen
/// characters, so beginnings count.
pub open spec fn infrastructure(comm: Text) -> bool {
    ||| "systemd"@.is_prefix_of(comm)
    ||| "dbus-daemon"@.is_prefix_of(comm)
    ||| "dbus-broker"@.is_prefix_of(comm)
    ||| "pipewire"@.is_prefix_of(comm)
    ||| "wireplumber"@.is_prefix_of(comm)
    ||| "polkitd"@.is_prefix_of(comm)
    ||| "gnome-keyring"@.is_prefix_of(comm)
    ||| "xdg-desktop-por"@.is_prefix_of(comm)
    ||| "xdg-document-po"@.is_prefix_of(comm)
    ||| "xdg-permission"@.is_prefix_of(comm)
    ||| "kernel"@.is_prefix_of(comm)
    ||| "audit"@.is_prefix_of(comm)
    ||| "rtkit-daemon"@.is_prefix_of(comm)
    ||| "wayward"@.is_prefix_of(comm)
}

/// Whether a command name belongs to the infrastructure.
pub fn is_infrastructure(comm: &str) -> (r: bool)
    ensures
        r == infrastructure(comm@),
{
    begins_with(comm, "systemd") || begins_with(comm, "dbus-daemon") || begins_with(
        comm,
        "dbus-broker",
    ) || begins_with(comm, "pipewire") || begins_with(comm, "wireplumber") || begins_with(
        comm,
        "polkitd",
    ) || begins_with(comm, "gnome-keyring") || begins_with(comm, "xdg-desktop-por") || begins_with(
        comm,
        "xdg-document-po",
    ) || begins_with(comm, "xdg-permission") || begins_with(comm, "kernel") || begins_with(
        comm,
        "audit",
    ) || begins_with(comm, "rtkit-daemon") || begins_with(comm, "wayward")
}

/// The words that make a match in time into evidence when the process itself
/// writes them, from the most specific to the most generic.
pub open spec fn words_for(table: Text) -> Seq<Text> {
    if table == "screencast"@ {
        seq!["screencast"@, "screen capture"@, "screen-cast"@, "screencopy"@, "pipewire"@]
    } else if table == "screenshot"@ {
        seq!["screenshot"@, "screen shot"@, "capture"@]
    } else if table == "camera"@ {
        seq!["camera"@, "webcam"@, "v4l"@]
    } else if table == "devices"@ {
        seq!["camera"@, "microphone"@, "device"@]
    } else if table == "location"@ {
        seq!["location"@, "geoclue"@, "gps"@]
    } else if table == "remote-desktop"@ {
        seq!["remote desktop"@, "remotedesktop"@, "input capture"@]
    } else if table == "background"@ {
        seq!["background"@, "autostart"@]
    } else {
        seq!["portal"@]
    }
}

/// The words to look for, from the most specific to the most generic.
pub fn keywords(table: &str) -> (r: Vec<&'static str>)
    ensures
        text::views(r@) == words_for(table@),
{
    let words: Vec<&'static str> = if same(table, "screencast") {
        vec!["screencast", "screen capture", "screen-cast", "screencopy", "pipewire"]
    } else if same(table, "screenshot") {
        vec!["screenshot", "screen shot", "capture"]
    } else if same(table, "camera") {
        vec!["camera", "webcam", "v4l"]
    } else if same(table, "devices") {
        vec!["camera", "microphone", "device"]
    } else if same(table, "location") {
        vec!["location", "geoclue", "gps"]
    } else if same(table, "remote-desktop") {
        vec!["remote desktop", "remotedesktop", "input capture"]
    } else if same(table, "background") {
        vec!["background", "autostart"]
    } else {
        vec!["portal"]
    };
    proof {
        assert(text::views(words@) =~= words_for(table@));
    }
    words
}

/// The place of the first word, from place `from` on, that occurs in a text.
pub open spec fn first_word_in(words: Seq<Text>, lowered: Text, from: int) -> Option<int>
    decreases words.len() - from,
{
    if from < 0 || from >= words.len() {
        None
    } else if split::occurs_in(lowered, words[from]) {
        Some(from)
    } else {
        first_word_in(words, lowered, from + 1)
    }
}

/// The place of the first word that occurs in a text in small letters: the
/// lower, the more specific.
pub open spec fn priority(words: Seq<Text>, lowered: Text) -> Option<int> {
    first_word_in(words, lowered, 0)
}

/// The place of the first word that occurs in a text in small letters.
fn priority_of(words: &Vec<&'static str>, lowered: &str) -> (r: Option<usize>)
    ensures
        match r {
            Some(i) => priority(text::views(words@), lowered@) == Some(i as int),
            None => priority(text::views(words@), lowered@) is None,
        },
{
    let n = words.len();
    let mut i: usize = 0;
    while i < n
        invariant
            i <= n,
            n == words@.len(),
            priority(text::views(words@), lowered@) == first_word_in(
                text::views(words@),
                lowered@,
                i as int,
            ),
        decreases n - i,
    {
        if holds(lowered, words[i]) {
            return Some(i);
        }
        i = i + 1;
    }
    None
}

// ---------------------------------------------------------------------------
// Reading the journal
// ---------------------------------------------------------------------------
/// A line that an application wrote to the journal.
pub struct Sighting {
    pub comm: String,
    pub exe: Option<String>,
    pub pid: Option<u32>,
    /// Seconds from the grant to the line.
    pub offset: i64,
    pub message: String,
    /// The message in small letters.
    pub lowered: String,
}

/// A line of the journal as the contracts see it.
pub struct SightingView {
    pub comm: Text,
    pub exe: Option<Text>,
    pub pid: Option<u32>,
    pub offset: i64,
    pub message: Text,
    pub lowered: Text,
}

impl View for Sighting {
    type V = SightingView;

    open spec fn view(&self) -> SightingView {
        SightingView {
            comm: self.comm@,
            exe: text::opt(self.exe),
            pid: self.pid,
            offset: self.offset,
            message: self.message@,
            lowered: self.lowered@,
        }
    }
}

/// The bytes that the numbers of a list stand for; what is not a number is
/// passed over.
pub open spec fn byte_values(items: Seq<JsonView>) -> Seq<u8>
    decreases items.len(),
{
    if items.len() == 0 {
        Seq::empty()
    } else {
        let before = byte_values(items.drop_last());
        match items.last().unsigned() {
            Some(n) => before.push((n % 256) as u8),
            None => before,
        }
    }
}

/// The message of an entry. It is a text, or a list of bytes where it is not
/// valid UTF-8.
pub open spec fn message_in(entry: JsonView) -> Text {
    match entry.field("MESSAGE"@) {
        Some(JsonView::Str(s)) => s,
        Some(JsonView::Array(items)) => crate::format::lossy(byte_values(items)),
        _ => Seq::empty(),
    }
}

/// The bytes that the numbers of a list stand for.
pub fn bytes_of(items: &Vec<Json>) -> (r: Vec<u8>)
    ensures
        r@ == byte_values(json::array_view(items@)),
{
    let ghost all = json::array_view(items@);
    proof {
        json::lemma_array_view(items@);
        assert(all.take(0) =~= Seq::empty());
    }
    let mut out: Vec<u8> = Vec::new();
    let mut i: usize = 0;
    while i < items.len()
        invariant
            i <= items@.len(),
            all == json::array_view(items@),
            all.len() == items@.len(),
            forall|k: int| 0 <= k < items@.len() ==> #[trigger] all[k] == items@[k]@,
            out@ == byte_values(all.take(i as int)),
        decreases items@.len() - i,
    {
        proof {
            assert(all.take(i + 1).drop_last() =~= all.take(i as int));
            assert(all.take(i + 1).last() == all[i as int]);
        }
        if let Some(n) = items[i].as_u64() {
            out.push((n % 256) as u8);
        }
        i = i + 1;
    }
    proof {
        assert(all.take(i as int) =~= all);
    }
    out
}

/// The message of an entry.
pub fn message_of(entry: &Json) -> (r: String)
    ensures
        r@ == message_in(entry@),
{
    match entry.get("MESSAGE") {
        Some(value) => {
            if let Some(s) = value.as_str() {
                return s.to_owned();
            }
            match value.as_array() {
                Some(items) => {
                    let raw = bytes_of(items);
                    from_utf8_lossy(raw.as_slice())
                },
                None => String::new(),
            }
        },
        None => String::new(),
    }
}

/// The time of an entry in Unix seconds: the journal gives it in microseconds,
/// as a text.
pub open spec fn seconds_in(entry: JsonView) -> Option<int> {
    match store::text_in(entry.field("__REALTIME_TIMESTAMP"@)) {
        Some(s) => match crate::format::read_i64(s) {
            Some(stamp) => Some(number::quotient(stamp as int, 1_000_000)),
            None => None,
        },
        None => None,
    }
}

/// The process number of an entry.
pub open spec fn pid_in(entry: JsonView) -> Option<u32> {
    match store::text_in(entry.field("_PID"@)) {
        Some(s) => crate::format::read_u32(s),
        None => None,
    }
}

/// What an entry says, given its message in small letters. An entry without a
/// command name, without a time or of the infrastructure says nothing.
pub open spec fn sighting_in(entry: JsonView, issued_at: i64, lowered: Text) -> Option<
    SightingView,
> {
    match store::text_in(entry.field("_COMM"@)) {
        Some(comm) => if comm.len() == 0 || infrastructure(comm) {
            None
        } else {
            match seconds_in(entry) {
                Some(seconds) => Some(
                    SightingView {
                        comm,
                        exe: store::text_in(entry.field("_EXE"@)),
                        pid: pid_in(entry),
                        offset: number::wrapped(seconds - issued_at) as i64,
                        message: message_in(entry),
                        lowered,
                    },
                ),
                None => None,
            }
        },
        None => None,
    }
}

/// What an entry says, given its message in small letters.
pub fn sighting(entry: &Json, issued_at: i64, lowered: String) -> (r: Option<Sighting>)
    ensures
        text::opt(r) == sighting_in(entry@, issued_at, lowered@),
{
    let comm = match entry.get("_COMM") {
        Some(value) => value.as_str(),
        None => None,
    };
    let comm = match comm {
        Some(comm) => comm,
        None => {
            return None;
        },
    };
    if comm.is_empty() || is_infrastructure(comm) {
        return None;
    }
    let stamp = match entry.get("__REALTIME_TIMESTAMP") {
        Some(value) => value.as_str(),
        None => None,
    };
    let stamp: Option<i64> = match stamp {
        Some(s) => parse_i64(s),
        None => None,
    };
    let stamp: i64 = match stamp {
        Some(stamp) => stamp,
        None => {
            return None;
        },
    };
    let offset: i64 = difference(divided(stamp, 1_000_000), issued_at);
    let exe = match entry.get("_EXE") {
        Some(value) => match value.as_str() {
            Some(s) => Some(s.to_owned()),
            None => None,
        },
        None => None,
    };
    let pid: Option<u32> = match entry.get("_PID") {
        Some(value) => match value.as_str() {
            Some(s) => parse_u32(s),
            None => None,
        },
        None => None,
    };
    Some(Sighting { comm: comm.to_owned(), exe, pid, offset, message: message_of(entry), lowered })
}

/// What a line of the journal says. A line that is not JSON says nothing.
pub open spec fn line_sighting(line: Text, issued_at: i64) -> Option<SightingView> {
    match json::parsed(line) {
        Some(entry) => sighting_in(entry, issued_at, crate::format::lowercase(message_in(entry))),
        None => None,
    }
}

/// What the lines of the journal say.
pub open spec fn line_sightings(list: Seq<Text>, issued_at: i64) -> Seq<SightingView>
    decreases list.len(),
{
    if list.len() == 0 {
        Seq::empty()
    } else {
        let before = line_sightings(list.drop_last(), issued_at);
        match line_sighting(list.last(), issued_at) {
            Some(seen) => before.push(seen),
            None => before,
        }
    }
}

/// What the lines of the journal say.
fn read_lines(list: &Vec<String>, issued_at: i64) -> (r: Vec<Sighting>)
    ensures
        text::views(r@) == line_sightings(text::views(list@), issued_at),
{
    broadcast use crate::text::group_views;

    let ghost all = text::views(list@);
    let mut out: Vec<Sighting> = Vec::new();
    let mut i: usize = 0;
    proof {
        assert(all.take(0) =~= Seq::empty());
    }
    while i < list.len()
        invariant
            i <= list@.len(),
            all == text::views(list@),
            text::views(out@) == line_sightings(all.take(i as int), issued_at),
        decreases list@.len() - i,
    {
        proof {
            assert(all.take(i + 1).drop_last() =~= all.take(i as int));
            assert(all.take(i + 1).last() == list@[i as int]@);
        }
        if let Some(entry) = json::parse(list[i].as_str()) {
            let lowered = to_lowercase(message_of(&entry).as_str());
            if let Some(seen) = sighting(&entry, issued_at, lowered) {
                out.push(seen);
            }
        }
        i = i + 1;
    }
    proof {
        assert(all.take(i as int) =~= all);
    }
    out
}

// ---------------------------------------------------------------------------
// Weighing what was read
// ---------------------------------------------------------------------------
/// What a process wrote in the window.
struct Tally {
    exe: Option<String>,
    pid: Option<u32>,
    lines: usize,
    /// The line nearest to the grant, with its offset.
    nearest: Option<(i64, String)>,
    /// The line with the best word: the word's place, the line's offset, and
    /// the line.
    keyword: Option<(usize, i64, String)>,
}

/// What a process wrote in the window, as the contracts see it.
pub struct TallyView {
    pub exe: Option<Text>,
    pub pid: Option<u32>,
    pub lines: nat,
    pub nearest: Option<(i64, Text)>,
    pub keyword: Option<(int, i64, Text)>,
}

impl View for Tally {
    type V = TallyView;

    closed spec fn view(&self) -> TallyView {
        TallyView {
            exe: text::opt(self.exe),
            pid: self.pid,
            lines: self.lines as nat,
            nearest: match self.nearest {
                Some((offset, line)) => Some((offset, line@)),
                None => None,
            },
            keyword: match self.keyword {
                Some((place, offset, line)) => Some((place as int, offset, line@)),
                None => None,
            },
        }
    }
}

/// Nothing written yet.
pub open spec fn no_tally() -> TallyView {
    TallyView { exe: None, pid: None, lines: 0, nearest: None, keyword: None }
}

/// Whether a line with a word displaces the one that was held. How specific
/// the word is decides; only between lines with the same word does the nearer
/// one win.
pub open spec fn displaces(current: Option<(int, i64)>, place: int, offset: i64) -> bool {
    match current {
        None => true,
        Some((best_place, best_offset)) => place < best_place || (place == best_place
            && number::distance(offset) < number::distance(best_offset)),
    }
}

/// The place and the offset of a line with a word.
pub open spec fn place_and_offset(keyword: Option<(int, i64, Text)>) -> Option<(int, i64)> {
    match keyword {
        Some((place, offset, _)) => Some((place, offset)),
        None => None,
    }
}

/// Whether a line with a word displaces the one that was held.
pub fn beats_keyword(current: Option<&(usize, i64, String)>, priority: usize, offset: i64) -> (r: bool)
    ensures
        r == displaces(
            match current {
                Some(held) => Some((held.0 as int, held.1)),
                None => None,
            },
            priority as int,
            offset,
        ),
{
    match current {
        None => true,
        Some(held) => priority < held.0 || (priority == held.0 && magnitude(offset) < magnitude(
            held.1,
        )),
    }
}

/// A tally with one line more.
pub open spec fn tallied(t: TallyView, seen: SightingView, words: Seq<Text>) -> TallyView {
    TallyView {
        exe: if t.exe is Some {
            t.exe
        } else {
            seen.exe
        },
        pid: if t.pid is Some {
            t.pid
        } else {
            seen.pid
        },
        lines: t.lines + 1,
        nearest: match t.nearest {
            Some((best, _)) => if number::distance(seen.offset) < number::distance(best) {
                Some((seen.offset, seen.message))
            } else {
                t.nearest
            },
            None => Some((seen.offset, seen.message)),
        },
        keyword: match priority(words, seen.lowered) {
            Some(place) => if displaces(place_and_offset(t.keyword), place, seen.offset) {
                Some((place, seen.offset, seen.message))
            } else {
                t.keyword
            },
            None => t.keyword,
        },
    }
}

/// What the process of a command name wrote in the window.
pub open spec fn tally_of(seen: Seq<SightingView>, comm: Text, words: Seq<Text>) -> TallyView
    decreases seen.len(),
{
    if seen.len() == 0 {
        no_tally()
    } else {
        let before = tally_of(seen.drop_last(), comm, words);
        if seen.last().comm == comm {
            tallied(before, seen.last(), words)
        } else {
            before
        }
    }
}

/// The command names, in the order in which they first occur.
pub open spec fn names_in(seen: Seq<SightingView>) -> Seq<Text>
    decreases seen.len(),
{
    if seen.len() == 0 {
        Seq::empty()
    } else {
        let before = names_in(seen.drop_last());
        if before.contains(seen.last().comm) {
            before
        } else {
            before.push(seen.last().comm)
        }
    }
}

/// Near enough to the grant to be about it: three seconds at most.
pub open spec fn near(offset: i64) -> bool {
    number::distance(offset) <= 3
}

/// The candidate that a tally makes. What the process said it was doing counts
/// most; that it merely wrote something counts less.
pub open spec fn candidate_from(label: Text, t: TallyView, window: i64) -> CandidateView {
    let (offset, evidence, confidence) = match (t.keyword, t.nearest) {
        (Some((_, offset, line)), _) => (
            offset,
            line,
            if near(offset) {
                Confidence::High
            } else {
                Confidence::Medium
            },
        ),
        (None, Some((offset, line))) => (
            offset,
            line,
            if near(offset) {
                Confidence::Medium
            } else {
                Confidence::Low
            },
        ),
        (None, None) => (window, Seq::empty(), Confidence::Low),
    };
    CandidateView { label, exe: t.exe, pid: t.pid, confidence, offset, evidence, lines: t.lines }
}

/// The candidates, in the order in which they first wrote.
pub open spec fn candidates_in(seen: Seq<SightingView>, words: Seq<Text>, window: i64) -> Seq<
    CandidateView,
> {
    let names = names_in(seen);
    Seq::new(
        names.len(),
        |i: int| candidate_from(names[i], tally_of(seen, names[i], words), window),
    )
}

/// What candidates are ordered by: the confidence, then how near they were,
/// then how much they wrote.
pub open spec fn rank_key(c: CandidateView) -> Seq<int> {
    seq![-confidence_level(c.confidence), number::distance(c.offset), -(c.lines as int)]
}

/// What the candidates of a list are ordered by.
pub open spec fn rank_keys(list: Seq<CandidateView>) -> Seq<Seq<int>> {
    Seq::new(list.len(), |i: int| rank_key(list[i]))
}

/// Candidates with the best first.
pub open spec fn best_first(list: Seq<CandidateView>) -> Seq<CandidateView> {
    order::arranged(list, order::stable_order(rank_keys(list)))
}

/// The candidates that the lines around a grant give.
pub open spec fn ranking(table: Text, window: i64, seen: Seq<SightingView>) -> Seq<CandidateView> {
    best_first(candidates_in(seen, words_for(table), window))
}

/// A tally with one line more.
fn tally(t: Option<&Tally>, seen: &Sighting, words: &Vec<&'static str>) -> (r: Tally)
    requires
        t is Some ==> t->0.lines < usize::MAX,
    ensures
        r@ == tallied(
            match t {
                Some(held) => held@,
                None => no_tally(),
            },
            seen@,
            text::views(words@),
        ),
{
    let empty = Tally { exe: None, pid: None, lines: 0, nearest: None, keyword: None };
    let t = match t {
        Some(held) => held,
        None => &empty,
    };
    let exe = if t.exe.is_some() {
        copy_opt(&t.exe)
    } else {
        copy_opt(&seen.exe)
    };
    let pid: Option<u32> = if t.pid.is_some() {
        t.pid
    } else {
        seen.pid
    };
    let nearest = match &t.nearest {
        Some((best, line)) => if magnitude(seen.offset) < magnitude(*best) {
            Some((seen.offset, seen.message.clone()))
        } else {
            Some((*best, line.clone()))
        },
        None => Some((seen.offset, seen.message.clone())),
    };
    let found: Option<usize> = match priority_of(words, seen.lowered.as_str()) {
        Some(place) => if beats_keyword(t.keyword.as_ref(), place, seen.offset) {
            Some(place)
        } else {
            None
        },
        None => None,
    };
    let keyword = match found {
        Some(place) => Some((place, seen.offset, seen.message.clone())),
        None => match &t.keyword {
            Some((place, offset, line)) => Some((*place, *offset, line.clone())),
            None => None,
        },
    };
    Tally { exe, pid, lines: t.lines + 1, nearest, keyword }
}

/// The candidate that a tally makes.
fn candidate(label: &str, t: &Tally, window: i64) -> (r: Candidate)
    ensures
        r@ == candidate_from(label@, t@, window),
{
    let (offset, evidence, confidence): (i64, String, Confidence) = match &t.keyword {
        Some((_, offset, line)) => (
            *offset,
            line.clone(),
            if magnitude(*offset) <= 3 {
                Confidence::High
            } else {
                Confidence::Medium
            },
        ),
        None => match &t.nearest {
            Some((offset, line)) => (
                *offset,
                line.clone(),
                if magnitude(*offset) <= 3 {
                    Confidence::Medium
                } else {
                    Confidence::Low
                },
            ),
            None => (window, String::new(), Confidence::Low),
        },
    };
    Candidate {
        label: label.to_owned(),
        exe: copy_opt(&t.exe),
        pid: t.pid,
        confidence,
        offset,
        evidence,
        lines: t.lines,
    }
}

/// A tally of the lines of each process.
fn tally_all(seen: &Vec<Sighting>, words: &Vec<&'static str>) -> (r: Table<Tally>)
    ensures
        r.keys() == names_in(text::views(seen@)),
        forall|k: Text|
            r@.contains_key(k) ==> (#[trigger] r@[k])@ == tally_of(
                text::views(seen@),
                k,
                text::views(words@),
            ),
{
    let ghost all = text::views(seen@);
    let ghost w = text::views(words@);
    let mut tallies: Table<Tally> = Table::new();
    let mut i: usize = 0;
    proof {
        assert(all.take(0) =~= Seq::empty());
    }
    while i < seen.len()
        invariant
            i <= seen@.len(),
            all == text::views(seen@),
            w == text::views(words@),
            tallies.keys() == names_in(all.take(i as int)),
            forall|k: Text| tallies@.contains_key(k) <==> #[trigger] tallies.keys().contains(k),
            forall|k: Text|
                tallies@.contains_key(k) ==> (#[trigger] tallies@[k])@ == tally_of(
                    all.take(i as int),
                    k,
                    w,
                ) && tallies@[k].lines <= i,
            forall|k: Text|
                !tallies@.contains_key(k) ==> #[trigger] tally_of(all.take(i as int), k, w)
                    == no_tally(),
        decreases seen@.len() - i,
    {
        let ghost before = tallies@;
        let ghost comm = seen@[i as int].comm@;
        proof {
            assert(all.take(i + 1).drop_last() =~= all.take(i as int));
            assert(all.take(i + 1).last() == seen@[i as int]@);
            assert(tallies.keys().contains(comm) == before.contains_key(comm));
            assert(tally_of(all.take(i as int), comm, w) == if before.contains_key(comm) {
                before[comm]@
            } else {
                no_tally()
            });
        }
        let next = tally(tallies.get(seen[i].comm.as_str()), &seen[i], words);
        let ghost added = next;
        tallies.insert(seen[i].comm.clone(), next);
        proof {
            assert(added@ == tally_of(all.take(i + 1), comm, w));
            assert forall|k: Text| tallies@.contains_key(k) implies (#[trigger] tallies@[k])@
                == tally_of(all.take(i + 1), k, w) && tallies@[k].lines <= i + 1 by {
                if k != comm {
                    assert(before.contains_key(k));
                    assert(before[k] == tallies@[k]);
                    assert(before[k]@ == tally_of(all.take(i as int), k, w));
                }
            }
            assert forall|k: Text| !tallies@.contains_key(k) implies #[trigger] tally_of(
                all.take(i + 1),
                k,
                w,
            ) == no_tally() by {
                assert(!before.contains_key(k));
                assert(tally_of(all.take(i as int), k, w) == no_tally());
            }
        }
        i = i + 1;
    }
    proof {
        assert(all.take(i as int) =~= all);
    }
    tallies
}

/// A list of candidates with the best first.
fn sort_candidates(list: &Vec<Candidate>) -> (r: Vec<Candidate>)
    ensures
        text::views(r@) == best_first(text::views(list@)),
{
    broadcast use crate::text::group_views;

    let ghost all = text::views(list@);
    let n = list.len();
    let mut ks: Vec<Vec<i128>> = Vec::new();
    let mut i: usize = 0;
    while i < n
        invariant
            i <= n,
            n == list@.len(),
            all == text::views(list@),
            ks@.len() == i,
            forall|k: int| 0 <= k < i ==> order::key(#[trigger] ks@[k]@) == rank_key(all[k]),
        decreases n - i,
    {
        let c = &list[i];
        let mut k: Vec<i128> = Vec::new();
        k.push(0i128 - c.confidence.level() as i128);
        k.push(magnitude(c.offset) as i128);
        k.push(0i128 - c.lines as i128);
        proof {
            assert(order::key(k@) =~= rank_key(all[i as int]));
        }
        ks.push(k);
        i = i + 1;
    }
    proof {
        assert(order::keys(ks@) =~= rank_keys(all));
    }
    let places = order_of(&ks);
    let mut out: Vec<Candidate> = Vec::new();
    let mut j: usize = 0;
    while j < places.len()
        invariant
            j <= places@.len(),
            all == text::views(list@),
            n == list@.len(),
            order::positions(places@) == order::stable_order(rank_keys(all)),
            order::is_order(rank_keys(all), order::positions(places@)),
            text::views(out@) == best_first(all).take(j as int),
        decreases places@.len() - j,
    {
        proof {
            assert(order::positions(places@)[j as int] == places@[j as int]);
            assert(best_first(all).take(j + 1) =~= best_first(all).take(j as int).push(
                list@[places@[j as int] as int]@,
            ));
        }
        out.push(list[places[j]].clone());
        j = j + 1;
    }
    proof {
        assert(best_first(all).take(j as int) =~= best_first(all));
    }
    out
}

/// The candidates that the lines around a grant give, with the best first.
pub fn rank(table: &str, window: i64, seen: &Vec<Sighting>) -> (r: Vec<Candidate>)
    ensures
        text::views(r@) == ranking(table@, window, text::views(seen@)),
        is_ranked(text::views(r@)),
{
    broadcast use crate::text::group_views;

    let words = keywords(table);
    let tallies = tally_all(seen, &words);
    let ghost all = text::views(seen@);
    let ghost expected = candidates_in(all, words_for(table@), window);
    let n = tallies.len();
    let mut list: Vec<Candidate> = Vec::new();
    let mut i: usize = 0;
    proof {
        assert(expected.take(0) =~= Seq::empty());
    }
    while i < n
        invariant
            i <= n,
            n == tallies.keys().len(),
            tallies.keys() == names_in(all),
            expected == candidates_in(all, words_for(table@), window),
            forall|k: Text|
                tallies@.contains_key(k) ==> (#[trigger] tallies@[k])@ == tally_of(
                    all,
                    k,
                    words_for(table@),
                ),
            text::views(list@) == expected.take(i as int),
        decreases n - i,
    {
        list.push(candidate(tallies.key_at(i), tallies.value_at(i), window));
        proof {
            assert(expected.take(i + 1) =~= expected.take(i as int).push(expected[i as int]));
        }
        i = i + 1;
    }
    proof {
        assert(expected.take(i as int) =~= expected);
    }
    proof {
        law_best_first(expected);
    }
    sort_candidates(&list)
}

/// No candidate comes after one of lower confidence; at equal confidence none
/// comes after one that was further away, nor, at equal distance, after one
/// that wrote less. The least offset of all has no distance in 64 bits, and
/// stands outside.
pub open spec fn is_ranked(list: Seq<CandidateView>) -> bool {
    forall|i: int, j: int|
        0 <= i < j < list.len() ==> {
            let a = #[trigger] list[i];
            let b = #[trigger] list[j];
            &&& confidence_level(a.confidence) >= confidence_level(b.confidence)
            &&& a.confidence == b.confidence && a.offset > i64::MIN && b.offset > i64::MIN ==> {
                &&& (a.offset <= b.offset || a.offset <= -b.offset) && (-a.offset <= b.offset || -a.offset <= -b.offset)
                &&& a.offset == b.offset || a.offset == -b.offset ==> a.lines >= b.lines
            }
        }
}

/// Ranking puts the candidates of higher confidence first, loses none and
/// makes none up.
pub proof fn law_best_first(list: Seq<CandidateView>)
    ensures
        is_ranked(best_first(list)),
        best_first(list).len() == list.len(),
        forall|c: CandidateView| #[trigger] best_first(list).contains(c) <==> list.contains(c),
{
    let places = order::stable_order(rank_keys(list));
    order::lemma_order_exists(rank_keys(list));
    order::lemma_arranged(list, rank_keys(list));
    let ranked = best_first(list);
    assert forall|i: int, j: int| 0 <= i < j < ranked.len() implies {
        let a = #[trigger] ranked[i];
        let b = #[trigger] ranked[j];
        &&& confidence_level(a.confidence) >= confidence_level(b.confidence)
        &&& a.confidence == b.confidence && a.offset > i64::MIN && b.offset > i64::MIN ==> {
            &&& (a.offset <= b.offset || a.offset <= -b.offset) && (-a.offset <= b.offset || -a.offset <= -b.offset)
            &&& a.offset == b.offset || a.offset == -b.offset ==> a.lines >= b.lines
        }
    } by {
        lemma_rank(list, i, j);
    }
}

/// The places of two candidates in a ranking.
proof fn lemma_rank(list: Seq<CandidateView>, i: int, j: int)
    requires
        0 <= i < j < best_first(list).len(),
    ensures
        ({
            let a = best_first(list)[i];
            let b = best_first(list)[j];
            &&& confidence_level(a.confidence) >= confidence_level(b.confidence)
            &&& confidence_level(a.confidence) == confidence_level(b.confidence)
                ==> number::distance(a.offset) <= number::distance(b.offset)
            &&& confidence_level(a.confidence) == confidence_level(b.confidence)
                && number::distance(a.offset) == number::distance(b.offset) ==> a.lines >= b.lines
        }),
{
    let keys = rank_keys(list);
    let places = order::stable_order(keys);
    order::lemma_order_exists(keys);
    let x = keys[places[i]];
    let y = keys[places[j]];
    assert(order::belongs_before(keys, places[i], places[j]));
    assert(x == rank_key(list[places[i]]));
    assert(y == rank_key(list[places[j]]));
    if order::key_lt(x, y) && x[0] == y[0] {
        assert(order::key_lt(x.drop_first(), y.drop_first()));
        if x[1] == y[1] {
            assert(order::key_lt(x.drop_first().drop_first(), y.drop_first().drop_first()));
        }
    }
}

/// What `journalctl` answered.
pub struct Output {
    pub success: bool,
    pub stdout: Vec<u8>,
    pub stderr: Vec<u8>,
}

/// The arguments that ask `journalctl` for the lines around a grant.
pub open spec fn arguments(issued_at: i64, window: i64) -> Seq<Text> {
    seq![
        "--user"@,
        "--no-pager"@,
        "-o"@,
        "json"@,
        "--since"@,
        "@"@ + text::signed_dec(number::wrapped(issued_at - window)),
        "--until"@,
        "@"@ + text::signed_dec(number::wrapped(issued_at + window)),
    ]
}

/// The arguments that ask `journalctl` for the lines around a grant: `window`
/// seconds to either side.
pub fn journal_arguments(issued_at: i64, window: i64) -> (r: Vec<String>)
    ensures
        text::views(r@) == arguments(issued_at, window),
{
    let since = "@".to_owned().concat(signed_decimal(difference(issued_at, window)).as_str());
    let until = "@".to_owned().concat(signed_decimal(sum(issued_at, window)).as_str());
    let r: Vec<String> = vec![
        "--user".to_owned(),
        "--no-pager".to_owned(),
        "-o".to_owned(),
        "json".to_owned(),
        "--since".to_owned(),
        since,
        "--until".to_owned(),
        until,
    ];
    proof {
        assert(text::views(r@) =~= arguments(issued_at, window));
    }
    r
}

/// The candidates for a permission, from what `journalctl` answered to
/// [`journal_arguments`]. A failure of `journalctl` is passed on with its
/// own words.
pub fn resolve(table: &str, issued_at: i64, window: i64, output: &Output) -> (r: Result<
    Vec<Candidate>,
    String,
>)
    ensures
        match r {
            Ok(list) => output.success && text::views(list@) == ranking(
                table@,
                window,
                line_sightings(
                    split::lines_of(crate::format::lossy(output.stdout@)),
                    issued_at,
                ),
            ) && is_ranked(text::views(list@)),
            Err(message) => !output.success && message@ == "journalctl falló: "@ + text::trimmed(
                crate::format::lossy(output.stderr@),
            ),
        },
{
    if !output.success {
        let stderr = from_utf8_lossy(output.stderr.as_slice());
        return Err("journalctl falló: ".to_owned().concat(trim(stderr.as_str()).as_str()));
    }
    let stdout = from_utf8_lossy(output.stdout.as_slice());
    let seen = read_lines(&lines(stdout.as_str()), issued_at);
    Ok(rank(table, window, &seen))
}

// ---------------------------------------------------------------------------
// What holds of every ranking
// ---------------------------------------------------------------------------
/// Of all the lines of a process that hold a word, the one with the most
/// specific word counts, and among those the nearest to the grant.
pub proof fn law_specific_words_win(seen: Seq<SightingView>, comm: Text, words: Seq<Text>, i: int)
    requires
        0 <= i < seen.len(),
        seen[i].comm == comm,
        priority(words, seen[i].lowered) is Some,
    ensures
        ({
            let place = priority(words, seen[i].lowered)->0;
            let held = tally_of(seen, comm, words).keyword;
            &&& held is Some
            &&& (held->0).0 <= place
            &&& (held->0).0 == place ==> number::distance((held->0).1) <= number::distance(
                seen[i].offset,
            )
        }),
    decreases seen.len(),
{
    if i < seen.len() - 1 {
        law_specific_words_win(seen.drop_last(), comm, words, i);
    }
}

/// Of all the lines of a process, the nearest to the grant is held.
pub proof fn law_nearest_line_wins(seen: Seq<SightingView>, comm: Text, words: Seq<Text>, i: int)
    requires
        0 <= i < seen.len(),
        seen[i].comm == comm,
    ensures
        ({
            let held = tally_of(seen, comm, words).nearest;
            &&& held is Some
            &&& number::distance((held->0).0) <= number::distance(seen[i].offset)
        }),
    decreases seen.len(),
{
    if i < seen.len() - 1 {
        law_nearest_line_wins(seen.drop_last(), comm, words, i);
    }
}

/// High confidence takes a line with one of the words, within three seconds of
/// the grant: a process that merely wrote something never gets it.
pub proof fn law_high_confidence_needs_a_word(label: Text, t: TallyView, window: i64)
    ensures
        candidate_from(label, t, window).confidence == Confidence::High <==> t.keyword is Some
            && near((t.keyword->0).1),
{
}

/// A process that said what it was doing, at the time of the grant, comes before
/// one that merely happened to write something, wherever both are ranked.
pub proof fn law_naming_outranks_logging(
    seen: Seq<SightingView>,
    table: Text,
    window: i64,
    named: Text,
    other: Text,
    i: int,
    j: int,
)
    requires
        0 <= i < ranking(table, window, seen).len(),
        0 <= j < ranking(table, window, seen).len(),
        ranking(table, window, seen)[i] == candidate_from(
            named,
            tally_of(seen, named, words_for(table)),
            window,
        ),
        ranking(table, window, seen)[j] == candidate_from(
            other,
            tally_of(seen, other, words_for(table)),
            window,
        ),
        tally_of(seen, named, words_for(table)).keyword is Some,
        near((tally_of(seen, named, words_for(table)).keyword->0).1),
        tally_of(seen, other, words_for(table)).keyword is None,
    ensures
        i < j,
{
    law_best_first(candidates_in(seen, words_for(table), window));
}

/// Where the first of a ranked list of candidates does not reach a level of
/// confidence, none does.
pub proof fn law_the_first_is_the_best(resolution: ResolutionView, min: Confidence, i: int)
    requires
        is_ranked(resolution.candidates),
        0 <= i < resolution.candidates.len(),
        confidence_level(resolution.candidates[i].confidence) >= confidence_level(min),
    ensures
        resolution.best(min) is Some,
        confidence_level(resolution.best(min)->0.confidence) >= confidence_level(
            resolution.candidates[i].confidence,
        ),
{
}

/// The lines that are counted have a command name, and not one of the
/// infrastructure.
proof fn lemma_counted_lines(list: Seq<Text>, issued_at: i64, i: int)
    requires
        0 <= i < line_sightings(list, issued_at).len(),
    ensures
        !infrastructure(line_sightings(list, issued_at)[i].comm),
        line_sightings(list, issued_at)[i].comm.len() > 0,
    decreases list.len(),
{
    let before = line_sightings(list.drop_last(), issued_at);
    if i < before.len() {
        lemma_counted_lines(list.drop_last(), issued_at, i);
    }
}

/// Each name is that of some line.
proof fn lemma_names_occur(seen: Seq<SightingView>, i: int) -> (k: int)
    requires
        0 <= i < names_in(seen).len(),
    ensures
        0 <= k < seen.len(),
        names_in(seen)[i] == seen[k].comm,
    decreases seen.len(),
{
    if i < names_in(seen.drop_last()).len() {
        lemma_names_occur(seen.drop_last(), i)
    } else {
        seen.len() - 1
    }
}

/// The infrastructure never makes a candidate, whatever the journal holds.
pub proof fn law_infrastructure_is_no_candidate(
    table: Text,
    window: i64,
    list: Seq<Text>,
    issued_at: i64,
    c: CandidateView,
)
    requires
        ranking(table, window, line_sightings(list, issued_at)).contains(c),
    ensures
        !infrastructure(c.label),
        c.label.len() > 0,
{
    let seen = line_sightings(list, issued_at);
    let all = candidates_in(seen, words_for(table), window);
    law_best_first(all);
    assert(all.contains(c));
    let i = choose|i: int| 0 <= i < all.len() && all[i] == c;
    let k = lemma_names_occur(seen, i);
    lemma_counted_lines(list, issued_at, k);
}

/// Of two candidates in a ranking, the first inspires at least as much
/// confidence. At equal confidence it was at least as near to the grant, before
/// it or after it; at equal distance it wrote at least as many lines.
pub proof fn law_nearest_comes_first(
    table: Text,
    window: i64,
    seen: Seq<SightingView>,
    i: int,
    j: int,
)
    requires
        0 <= i < j < ranking(table, window, seen).len(),
        ranking(table, window, seen)[i].offset > i64::MIN,
        ranking(table, window, seen)[j].offset > i64::MIN,
    ensures
        ({
            let a = ranking(table, window, seen)[i];
            let b = ranking(table, window, seen)[j];
            let a_away = if a.offset < 0 {
                -a.offset
            } else {
                a.offset as int
            };
            let b_away = if b.offset < 0 {
                -b.offset
            } else {
                b.offset as int
            };
            &&& b.confidence == Confidence::High ==> a.confidence == Confidence::High
            &&& b.confidence == Confidence::Medium ==> a.confidence != Confidence::Low
            &&& a.confidence == b.confidence ==> a_away <= b_away
            &&& a.confidence == b.confidence && a_away == b_away ==> a.lines >= b.lines
        }),
{
    lemma_rank(candidates_in(seen, words_for(table), window), i, j);
}

/// The permission goes to the candidate that comes first, and to nobody where
/// the confidence in that one falls short. No other candidate inspires more
/// confidence, and none that inspires as much was nearer to the grant.
pub proof fn law_attributed_to_the_nearest(
    resolution: ResolutionView,
    window: i64,
    seen: Seq<SightingView>,
    min: Confidence,
    i: int,
)
    requires
        resolution.candidates == ranking(resolution.table, window, seen),
        0 <= i < resolution.candidates.len(),
        forall|k: int|
            0 <= k < resolution.candidates.len() ==> (#[trigger] resolution.candidates[k]).offset
                > i64::MIN,
    ensures
        ({
            let first = resolution.candidates[0];
            let other = resolution.candidates[i];
            let enough = match min {
                Confidence::Low => true,
                Confidence::Medium => first.confidence != Confidence::Low,
                Confidence::High => first.confidence == Confidence::High,
            };
            &&& resolution.best(min) == if enough {
                Some(first)
            } else {
                None
            }
            &&& other.confidence == Confidence::High ==> first.confidence == Confidence::High
            &&& other.confidence == Confidence::Medium ==> first.confidence != Confidence::Low
            &&& other.confidence == first.confidence ==> (if first.offset < 0 {
                -first.offset
            } else {
                first.offset as int
            }) <= (if other.offset < 0 {
                -other.offset
            } else {
                other.offset as int
            })
        }),
{
    if i > 0 {
        law_nearest_comes_first(resolution.table, window, seen, 0, i);
    }
}

/// Where the first word stands, and that none stands before it.
proof fn lemma_first_word(words: Seq<Text>, lowered: Text, from: int)
    requires
        0 <= from,
    ensures
        match first_word_in(words, lowered, from) {
            Some(p) => from <= p < words.len() && split::occurs_in(lowered, words[p]) && forall|w: int|
                from <= w < p ==> !split::occurs_in(lowered, #[trigger] words[w]),
            None => forall|w: int|
                from <= w < words.len() ==> !split::occurs_in(lowered, #[trigger] words[w]),
        },
    decreases words.len() - from,
{
    if from < words.len() && !split::occurs_in(lowered, words[from]) {
        lemma_first_word(words, lowered, from + 1);
    }
}

/// How many lines of a process there are.
pub open spec fn lines_by(seen: Seq<SightingView>, comm: Text) -> nat
    decreases seen.len(),
{
    if seen.len() == 0 {
        0
    } else {
        lines_by(seen.drop_last(), comm) + if seen.last().comm == comm {
            1nat
        } else {
            0nat
        }
    }
}

/// What a tally holds comes from the lines of its process.
#[verifier::rlimit(50)]
proof fn lemma_tally(seen: Seq<SightingView>, comm: Text, words: Seq<Text>)
    ensures
        ({
            let t = tally_of(seen, comm, words);
            &&& t.lines == lines_by(seen, comm)
            &&& match t.nearest {
                Some((offset, line)) => exists|k: int|
                    0 <= k < seen.len() && (#[trigger] seen[k]).comm == comm && seen[k].offset == offset
                        && seen[k].message == line,
                None => forall|k: int| 0 <= k < seen.len() ==> (#[trigger] seen[k]).comm != comm,
            }
            &&& match t.keyword {
                Some((place, offset, line)) => exists|k: int|
                    0 <= k < seen.len() && (#[trigger] seen[k]).comm == comm && seen[k].offset == offset
                        && seen[k].message == line && priority(words, seen[k].lowered) == Some(place),
                None => forall|k: int|
                    0 <= k < seen.len() && (#[trigger] seen[k]).comm == comm ==> priority(
                        words,
                        seen[k].lowered,
                    ) is None,
            }
            &&& match t.exe {
                Some(exe) => exists|k: int|
                    0 <= k < seen.len() && (#[trigger] seen[k]).comm == comm && seen[k].exe == Some(exe)
                        && forall|l: int|
                        0 <= l < k && (#[trigger] seen[l]).comm == comm ==> seen[l].exe is None,
                None => forall|k: int|
                    0 <= k < seen.len() && (#[trigger] seen[k]).comm == comm ==> seen[k].exe is None,
            }
            &&& match t.pid {
                Some(pid) => exists|k: int|
                    0 <= k < seen.len() && (#[trigger] seen[k]).comm == comm && seen[k].pid == Some(pid)
                        && forall|l: int|
                        0 <= l < k && (#[trigger] seen[l]).comm == comm ==> seen[l].pid is None,
                None => forall|k: int|
                    0 <= k < seen.len() && (#[trigger] seen[k]).comm == comm ==> seen[k].pid is None,
            }
        }),
    decreases seen.len(),
{
    if seen.len() > 0 {
        let rest = seen.drop_last();
        let n = seen.len() - 1;
        lemma_tally(rest, comm, words);
        let before = tally_of(rest, comm, words);
        let t = tally_of(seen, comm, words);
        assert(forall|k: int| 0 <= k < n ==> seen[k] == #[trigger] rest[k]);
        assert(seen[n] == seen.last());
        if before.nearest is Some {
            let k = choose|k: int|
                0 <= k < rest.len() && (#[trigger] rest[k]).comm == comm && rest[k].offset
                    == (before.nearest->0).0 && rest[k].message == (before.nearest->0).1;
            assert(seen[k].comm == comm);
        }
        if before.keyword is Some {
            let k = choose|k: int|
                0 <= k < rest.len() && (#[trigger] rest[k]).comm == comm && rest[k].offset
                    == (before.keyword->0).1 && rest[k].message == (before.keyword->0).2 && priority(
                    words,
                    rest[k].lowered,
                ) == Some((before.keyword->0).0);
            assert(seen[k].comm == comm);
        }
        if before.exe is Some {
            let k = choose|k: int|
                0 <= k < rest.len() && (#[trigger] rest[k]).comm == comm && rest[k].exe == before.exe
                    && forall|l: int|
                    0 <= l < k && (#[trigger] rest[l]).comm == comm ==> rest[l].exe is None;
            assert(seen[k].comm == comm);
            assert forall|l: int| 0 <= l < k && (#[trigger] seen[l]).comm == comm implies seen[l].exe is None by {
                assert(rest[l].comm == comm);
            }
        }
        if before.pid is Some {
            let k = choose|k: int|
                0 <= k < rest.len() && (#[trigger] rest[k]).comm == comm && rest[k].pid == before.pid
                    && forall|l: int|
                    0 <= l < k && (#[trigger] rest[l]).comm == comm ==> rest[l].pid is None;
            assert(seen[k].comm == comm);
            assert forall|l: int| 0 <= l < k && (#[trigger] seen[l]).comm == comm implies seen[l].pid is None by {
                assert(rest[l].comm == comm);
            }
        }
        assert forall|k: int| 0 <= k < n && before.exe is None && (#[trigger] seen[k]).comm
            == comm implies seen[k].exe is None by {
            assert(rest[k].comm == comm);
        }
        assert forall|k: int| 0 <= k < n && before.pid is None && (#[trigger] seen[k]).comm
            == comm implies seen[k].pid is None by {
            assert(rest[k].comm == comm);
        }
        assert forall|k: int| 0 <= k < n && before.keyword is None && (#[trigger] seen[k]).comm
            == comm implies priority(words, seen[k].lowered) is None by {
            assert(rest[k].comm == comm);
        }
        assert forall|k: int| 0 <= k < n && before.nearest is None implies (#[trigger] seen[k]).comm
            != comm by {
            assert(rest[k].comm != comm);
        }
    }
}

/// Every process that wrote something is a candidate.
pub proof fn law_every_process_is_a_candidate(
    table: Text,
    window: i64,
    seen: Seq<SightingView>,
    k: int,
) -> (i: int)
    requires
        0 <= k < seen.len(),
    ensures
        0 <= i < ranking(table, window, seen).len(),
        ranking(table, window, seen)[i].label == seen[k].comm,
{
    let list = candidates_in(seen, words_for(table), window);
    let keys = rank_keys(list);
    let places = order::stable_order(keys);
    let names = names_in(seen);
    order::lemma_order_exists(keys);
    lemma_named(seen, k);
    let n = choose|n: int| 0 <= n < names.len() && names[n] == seen[k].comm;
    assert(places.contains(n));
    choose|i: int| 0 <= i < places.len() && places[i] == n
}

/// No process is a candidate twice.
pub proof fn law_no_candidate_twice(
    table: Text,
    window: i64,
    seen: Seq<SightingView>,
    i: int,
    j: int,
)
    requires
        0 <= i < j < ranking(table, window, seen).len(),
    ensures
        ranking(table, window, seen)[i].label != ranking(table, window, seen)[j].label,
{
    let list = candidates_in(seen, words_for(table), window);
    let keys = rank_keys(list);
    let places = order::stable_order(keys);
    order::lemma_order_exists(keys);
    if ranking(table, window, seen)[i].label == ranking(table, window, seen)[j].label {
        lemma_names_differ(seen, places[i], places[j]);
        order::lemma_order_distinct(keys, places, i, j);
    }
}

/// The name of each line is among the names.
proof fn lemma_named(seen: Seq<SightingView>, k: int)
    requires
        0 <= k < seen.len(),
    ensures
        names_in(seen).contains(seen[k].comm),
    decreases seen.len(),
{
    let before = names_in(seen.drop_last());
    let all = names_in(seen);
    if k < seen.len() - 1 {
        lemma_named(seen.drop_last(), k);
        let n = choose|n: int| 0 <= n < before.len() && before[n] == seen[k].comm;
        assert(all[n] == seen[k].comm);
    } else if !before.contains(seen[k].comm) {
        assert(all[before.len() as int] == seen[k].comm);
    }
}

/// No name comes twice.
proof fn lemma_names_differ(seen: Seq<SightingView>, i: int, j: int)
    requires
        0 <= i < names_in(seen).len(),
        0 <= j < names_in(seen).len(),
        names_in(seen)[i] == names_in(seen)[j],
    ensures
        i == j,
    decreases seen.len(),
{
    let before = names_in(seen.drop_last());
    if i < before.len() && j < before.len() {
        lemma_names_differ(seen.drop_last(), i, j);
    } else if i < before.len() {
        assert(before.contains(before[i]));
    } else if j < before.len() {
        assert(before.contains(before[j]));
    }
}

/// A candidate rests on what its process wrote: it counts all of its lines, and
/// shows one of them with the offset of that line; its executable and its number
/// are the first that its lines give.
#[verifier::rlimit(50)]
pub proof fn law_a_candidate_rests_on_its_lines(
    table: Text,
    window: i64,
    seen: Seq<SightingView>,
    i: int,
)
    requires
        0 <= i < ranking(table, window, seen).len(),
    ensures
        ({
            let c = ranking(table, window, seen)[i];
            &&& c.lines == lines_by(seen, c.label)
            &&& exists|k: int|
                0 <= k < seen.len() && (#[trigger] seen[k]).comm == c.label && seen[k].offset == c.offset
                    && seen[k].message == c.evidence
            &&& match c.exe {
                Some(exe) => exists|k: int|
                    0 <= k < seen.len() && (#[trigger] seen[k]).comm == c.label && seen[k].exe == Some(exe)
                        && forall|l: int|
                        0 <= l < k && (#[trigger] seen[l]).comm == c.label ==> seen[l].exe is None,
                None => forall|k: int|
                    0 <= k < seen.len() && (#[trigger] seen[k]).comm == c.label ==> seen[k].exe is None,
            }
            &&& match c.pid {
                Some(pid) => exists|k: int|
                    0 <= k < seen.len() && (#[trigger] seen[k]).comm == c.label && seen[k].pid == Some(pid)
                        && forall|l: int|
                        0 <= l < k && (#[trigger] seen[l]).comm == c.label ==> seen[l].pid is None,
                None => forall|k: int|
                    0 <= k < seen.len() && (#[trigger] seen[k]).comm == c.label ==> seen[k].pid is None,
            }
        }),
{
    let c = ranking(table, window, seen)[i];
    lemma_candidate(table, window, seen, i);
    lemma_tally(seen, c.label, words_for(table));
}

/// The tally behind a candidate, which is not empty.
#[verifier::rlimit(50)]
proof fn lemma_candidate(table: Text, window: i64, seen: Seq<SightingView>, i: int)
    requires
        0 <= i < ranking(table, window, seen).len(),
    ensures
        ({
            let c = ranking(table, window, seen)[i];
            let t = tally_of(seen, c.label, words_for(table));
            c == candidate_from(c.label, t, window) && t.nearest is Some
        }),
{
    let words = words_for(table);
    let list = candidates_in(seen, words, window);
    let keys = rank_keys(list);
    let places = order::stable_order(keys);
    order::lemma_order_exists(keys);
    let n = places[i];
    let c = ranking(table, window, seen)[i];
    assert(c == list[n]);
    let k = lemma_names_occur(seen, n);
    lemma_tally(seen, c.label, words);
    assert(seen[k].comm == c.label);
}

/// What the confidence in a candidate says. Where the process named what it was
/// doing, the line that counts is one that does: no line of the process holds a
/// more specific word, and none with the same word was nearer. Within three
/// seconds of the grant that gives high confidence, and medium beyond. Where it
/// named nothing, its nearest line counts, and gives medium confidence within
/// three seconds and low confidence beyond.
#[verifier::rlimit(50)]
pub proof fn law_confidence_says_what_was_found(
    table: Text,
    window: i64,
    seen: Seq<SightingView>,
    i: int,
)
    requires
        0 <= i < ranking(table, window, seen).len(),
        forall|k: int| 0 <= k < seen.len() ==> (#[trigger] seen[k]).offset > i64::MIN,
    ensures
        ({
            let c = ranking(table, window, seen)[i];
            let words = words_for(table);
            let near = -3 <= c.offset <= 3;
            if exists|k: int, w: int|
                0 <= k < seen.len() && seen[k].comm == c.label && 0 <= w < words.len()
                    && #[trigger] split::occurs_in(seen[k].lowered, words[w]) {
                &&& c.confidence == if near {
                    Confidence::High
                } else {
                    Confidence::Medium
                }
                &&& exists|e: int, p: int|
                    0 <= e < seen.len() && seen[e].comm == c.label && seen[e].offset == c.offset
                        && seen[e].message == c.evidence && 0 <= p < words.len()
                        && #[trigger] split::occurs_in(seen[e].lowered, words[p]) && forall|
                        k: int,
                        w: int,
                    |
                        0 <= k < seen.len() && seen[k].comm == c.label && 0 <= w < words.len()
                            && #[trigger] split::occurs_in(seen[k].lowered, words[w]) ==> p <= w && (p
                            == w ==> (c.offset <= seen[k].offset || c.offset <= -seen[k].offset) && (-c.offset <= seen[k].offset || -c.offset <= -seen[k].offset))
            } else {
                &&& c.confidence == if near {
                    Confidence::Medium
                } else {
                    Confidence::Low
                }
                &&& forall|k: int|
                    0 <= k < seen.len() && (#[trigger] seen[k]).comm == c.label ==> (c.offset <= seen[k].offset || c.offset <= -seen[k].offset) && (-c.offset <= seen[k].offset || -c.offset <= -seen[k].offset)
            }
        }),
{
    let c = ranking(table, window, seen)[i];
    let words = words_for(table);
    let t = tally_of(seen, c.label, words);
    lemma_candidate(table, window, seen, i);
    lemma_tally(seen, c.label, words);
    let names = exists|k: int, w: int|
        0 <= k < seen.len() && seen[k].comm == c.label && 0 <= w < words.len()
            && #[trigger] split::occurs_in(seen[k].lowered, words[w]);
    match t.keyword {
        Some((place, offset, line)) => {
            let e = choose|k: int|
                0 <= k < seen.len() && (#[trigger] seen[k]).comm == c.label && seen[k].offset == offset
                    && seen[k].message == line && priority(words, seen[k].lowered) == Some(place);
            lemma_first_word(words, seen[e].lowered, 0);
            assert(split::occurs_in(seen[e].lowered, words[place]));
            assert(names);
            assert forall|k: int, w: int|
                0 <= k < seen.len() && seen[k].comm == c.label && 0 <= w < words.len()
                    && #[trigger] split::occurs_in(seen[k].lowered, words[w]) implies place <= w && (
            place == w ==> (c.offset <= seen[k].offset || c.offset <= -seen[k].offset) && (-c.offset <= seen[k].offset || -c.offset <= -seen[k].offset)) by {
                lemma_first_word(words, seen[k].lowered, 0);
                law_specific_words_win(seen, c.label, words, k);
            }
        },
        None => {
            assert(!names) by {
                assert forall|k: int, w: int|
                    0 <= k < seen.len() && seen[k].comm == c.label && 0 <= w
                        < words.len() implies !#[trigger] split::occurs_in(seen[k].lowered, words[w]) by {
                    lemma_first_word(words, seen[k].lowered, 0);
                }
            }
            let e = choose|k: int|
                0 <= k < seen.len() && (#[trigger] seen[k]).comm == c.label && seen[k].offset
                    == (t.nearest->0).0 && seen[k].message == (t.nearest->0).1;
            assert forall|k: int| 0 <= k < seen.len() && (#[trigger] seen[k]).comm
                == c.label implies (c.offset <= seen[k].offset || c.offset <= -seen[k].offset) && (-c.offset <= seen[k].offset || -c.offset <= -seen[k].offset) by {
                law_nearest_line_wins(seen, c.label, words, k);
            }
        },
    }
}

/// The words for each kind of permission, from the most specific to the most
/// generic; any other table is looked for by the name of the portal.
pub proof fn law_words_of_each_table(table: Text)
    ensures
        table == "screencast"@ ==> words_for(table).len() == 5 && words_for(table)[0] == "screencast"@ && words_for(table)[1] == "screen capture"@ && words_for(table)[2] == "screen-cast"@ && words_for(table)[3] == "screencopy"@ && words_for(table)[4] == "pipewire"@,
        table == "screenshot"@ ==> words_for(table).len() == 3 && words_for(table)[0] == "screenshot"@ && words_for(table)[1] == "screen shot"@ && words_for(table)[2] == "capture"@,
        table == "camera"@ ==> words_for(table).len() == 3 && words_for(table)[0] == "camera"@ && words_for(table)[1] == "webcam"@ && words_for(table)[2] == "v4l"@,
        table == "devices"@ ==> words_for(table).len() == 3 && words_for(table)[0] == "camera"@ && words_for(table)[1] == "microphone"@ && words_for(table)[2] == "device"@,
        table == "location"@ ==> words_for(table).len() == 3 && words_for(table)[0] == "location"@ && words_for(table)[1] == "geoclue"@ && words_for(table)[2] == "gps"@,
        table == "remote-desktop"@ ==> words_for(table).len() == 3 && words_for(table)[0] == "remote desktop"@ && words_for(table)[1] == "remotedesktop"@ && words_for(table)[2] == "input capture"@,
        table == "background"@ ==> words_for(table).len() == 2 && words_for(table)[0] == "background"@ && words_for(table)[1] == "autostart"@,
        table != "screencast"@ && table != "screenshot"@ && table != "camera"@ && table != "devices"@ && table != "location"@ && table != "remote-desktop"@ && table != "background"@ ==> words_for(table) == seq!["portal"@],
{
    reveal_strlit("screencast");
    reveal_strlit("screenshot");
    reveal_strlit("camera");
    reveal_strlit("devices");
    reveal_strlit("location");
    reveal_strlit("remote-desktop");
    reveal_strlit("background");
    assert("screencast"@.len() == 10);
    assert("screenshot"@.len() == 10);
    assert("camera"@.len() == 6);
    assert("devices"@.len() == 7);
    assert("location"@.len() == 8);
    assert("remote-desktop"@.len() == 14);
    assert("background"@.len() == 10);
    assert("screencast"@[6] == 'c');
    assert("screenshot"@[6] == 's');
    assert("screencast"@[0] == 's');
    assert("background"@[0] == 'b');
    assert("screenshot"@[0] == 's');
}

/// The infrastructure, with the names spelled out: what begins with one of them
/// belongs to it, cut off or not, and nothing else does.
pub proof fn law_infrastructure_goes_by_beginnings(comm: Text, rest: Text)
    ensures
        infrastructure(comm) <==> exists|k: int|
            0 <= k < infrastructure_names().len() && #[trigger] infrastructure_names()[k].is_prefix_of(
                comm,
            ),
        infrastructure(comm) ==> infrastructure(comm + rest),
{
    let names = infrastructure_names();
    assert(names[0] == "systemd"@);
    assert(names[1] == "dbus-daemon"@);
    assert(names[2] == "dbus-broker"@);
    assert(names[3] == "pipewire"@);
    assert(names[4] == "wireplumber"@);
    assert(names[5] == "polkitd"@);
    assert(names[6] == "gnome-keyring"@);
    assert(names[7] == "xdg-desktop-por"@);
    assert(names[8] == "xdg-document-po"@);
    assert(names[9] == "xdg-permission"@);
    assert(names[10] == "kernel"@);
    assert(names[11] == "audit"@);
    assert(names[12] == "rtkit-daemon"@);
    assert(names[13] == "wayward"@);
    if infrastructure(comm) {
        let k = choose|k: int| 0 <= k < names.len() && #[trigger] names[k].is_prefix_of(comm);
        assert((comm + rest).take(names[k].len() as int) =~= comm.take(names[k].len() as int));
        assert(names[k].is_prefix_of(comm + rest));
    }
}

/// What the command names of the infrastructure begin with.
pub open spec fn infrastructure_names() -> Seq<Text> {
    seq![
        "systemd"@,
        "dbus-daemon"@,
        "dbus-broker"@,
        "pipewire"@,
        "wireplumber"@,
        "polkitd"@,
        "gnome-keyring"@,
        "xdg-desktop-por"@,
        "xdg-document-po"@,
        "xdg-permission"@,
        "kernel"@,
        "audit"@,
        "rtkit-daemon"@,
        "wayward"@,
    ]
}

/// The journal is asked for the lines from `window` seconds before the grant to
/// `window` seconds after it, and for no others.
pub proof fn law_the_window_goes_to_either_side(issued_at: i64, window: i64)
    requires
        i64::MIN <= issued_at - window <= i64::MAX,
        i64::MIN <= issued_at + window <= i64::MAX,
    ensures
        ({
            let list = arguments(issued_at, window);
            &&& list.len() == 8
            &&& list[2] == "-o"@ && list[3] == "json"@
            &&& list[4] == "--since"@ && list[5] == "@"@ + text::signed_dec(issued_at - window)
            &&& list[6] == "--until"@ && list[7] == "@"@ + text::signed_dec(issued_at + window)
        }),
{
}

/// Confidence has three levels, in order, each with a word of its own.
pub proof fn law_levels_of_confidence(a: Confidence, b: Confidence)
    ensures
        confidence_level(a) < confidence_level(b) <==> match b {
            Confidence::Low => false,
            Confidence::Medium => a == Confidence::Low,
            Confidence::High => a != Confidence::High,
        },
        confidence_label(a) == "low"@ <==> a == Confidence::Low,
        confidence_label(a) == "medium"@ <==> a == Confidence::Medium,
        confidence_label(a) == "high"@ <==> a == Confidence::High,
{
    reveal_strlit("low");
    reveal_strlit("medium");
    reveal_strlit("high");
    assert("low"@.len() == 3);
    assert("medium"@.len() == 6);
    assert("high"@.len() == 4);
}

/// A line tells who wrote it, and how many seconds after the grant. The journal
/// gives the time in microseconds, as a text.
pub proof fn law_a_line_tells_who_and_when(
    entry: JsonView,
    comm: Text,
    seconds: nat,
    micros: nat,
    issued_at: i64,
    lowered: Text,
)
    requires
        entry.field("_COMM"@) == Some(JsonView::Str(comm)),
        comm.len() > 0,
        !infrastructure(comm),
        entry.field("__REALTIME_TIMESTAMP"@) == Some(
            JsonView::Str(text::dec(seconds * 1000000 + micros)),
        ),
        micros < 1000000,
        seconds * 1000000 + micros <= i64::MAX,
        i64::MIN <= seconds - issued_at <= i64::MAX,
    ensures
        match sighting_in(entry, issued_at, lowered) {
            Some(seen) => {
                &&& seen.comm == comm
                &&& seen.offset == seconds - issued_at
                &&& seen.message == message_in(entry)
                &&& seen.lowered == lowered
                &&& seen.exe == match entry.field("_EXE"@) {
                    Some(JsonView::Str(exe)) => Some(exe),
                    _ => None,
                }
                &&& forall|pid: u32|
                    entry.field("_PID"@) == Some(JsonView::Str(#[trigger] text::dec(pid as nat)))
                        ==> seen.pid == Some(pid)
            },
            None => false,
        },
{
    let stamp = (seconds * 1000000 + micros) as i64;
    crate::format::law_numbers_are_read_back(stamp);
    assert(number::quotient(stamp as int, 1_000_000) == seconds);
    assert forall|pid: u32|
        entry.field("_PID"@) == Some(
            JsonView::Str(#[trigger] text::dec(pid as nat)),
        ) implies pid_in(entry) == Some(pid) by {
        crate::format::law_counts_are_read_back(pid);
    }
}

/// A line without a command name, without a time, or of the infrastructure, says
/// nothing.
pub proof fn law_nameless_lines_say_nothing(entry: JsonView, issued_at: i64, lowered: Text)
    ensures
        !(entry.field("_COMM"@) matches Some(JsonView::Str(_))) ==> sighting_in(
            entry,
            issued_at,
            lowered,
        ) is None,
        entry.field("_COMM"@) == Some(JsonView::Str(""@)) ==> sighting_in(
            entry,
            issued_at,
            lowered,
        ) is None,
        !(entry.field("__REALTIME_TIMESTAMP"@) matches Some(JsonView::Str(_))) ==> sighting_in(
            entry,
            issued_at,
            lowered,
        ) is None,
        entry.field("_COMM"@) matches Some(JsonView::Str(comm)) ==> infrastructure(comm)
            ==> sighting_in(entry, issued_at, lowered) is None,
{
    reveal_strlit("");
}

/// A message is a text, or else the bytes of one.
pub proof fn law_messages_are_texts_or_bytes(entry: JsonView, bytes: Seq<u8>)
    ensures
        entry.field("MESSAGE"@) matches Some(JsonView::Str(s)) ==> message_in(entry) == s,
        entry.field("MESSAGE"@) == Some(
            JsonView::Array(Seq::new(bytes.len(), |i: int| JsonView::Unsigned(bytes[i] as u64))),
        ) ==> message_in(entry) == crate::format::lossy(bytes),
        entry.field("MESSAGE"@) is None ==> message_in(entry).len() == 0,
{
    lemma_bytes(bytes);
}

proof fn lemma_bytes(bytes: Seq<u8>)
    ensures
        byte_values(Seq::new(bytes.len(), |i: int| JsonView::Unsigned(bytes[i] as u64))) == bytes,
    decreases bytes.len(),
{
    let items = Seq::new(bytes.len(), |i: int| JsonView::Unsigned(bytes[i] as u64));
    if bytes.len() > 0 {
        let rest = bytes.drop_last();
        lemma_bytes(rest);
        assert(items.drop_last() =~= Seq::new(
            rest.len(),
            |i: int| JsonView::Unsigned(rest[i] as u64),
        ));
        assert(byte_values(items) =~= bytes);
    } else {
        assert(byte_values(items) =~= bytes);
    }
}

/// Each line speaks for itself: what the lines of two parts of the journal say is
/// what the one says, then what the other says.
pub proof fn law_lines_speak_for_themselves(a: Seq<Text>, b: Seq<Text>, issued_at: i64)
    ensures
        line_sightings(a + b, issued_at) == line_sightings(a, issued_at) + line_sightings(
            b,
            issued_at,
        ),
    decreases b.len(),
{
    if b.len() == 0 {
        assert(a + b =~= a);
        assert(line_sightings(a, issued_at) + line_sightings(b, issued_at) =~= line_sightings(
            a,
            issued_at,
        ));
    } else {
        law_lines_speak_for_themselves(a, b.drop_last(), issued_at);
        assert((a + b).drop_last() =~= a + b.drop_last());
        assert(line_sightings(a + b, issued_at) =~= line_sightings(a, issued_at) + line_sightings(
            b,
            issued_at,
        ));
    }
}

/// What one line says: nothing where it is not JSON, and else what its entry says,
/// with the words looked for in its message in small letters.
pub proof fn law_what_one_line_says(line: Text, issued_at: i64)
    ensures
        json::parsed(line) is None ==> line_sightings(seq![line], issued_at) == Seq::<
            SightingView,
        >::empty(),
        json::parsed(line) matches Some(entry) ==> line_sightings(seq![line], issued_at) == match sighting_in(
            entry,
            issued_at,
            crate::format::lowercase(message_in(entry)),
        ) {
            Some(seen) => seq![seen],
            None => Seq::<SightingView>::empty(),
        },
{
    let list = seq![line];
    assert(list.drop_last() =~= Seq::<Text>::empty());
    assert(list.last() == line);
    assert(line_sightings(Seq::<Text>::empty(), issued_at) =~= Seq::<SightingView>::empty());
    match line_sighting(line, issued_at) {
        Some(seen) => {
            assert(line_sightings(list, issued_at) =~= seq![seen]);
        },
        None => {},
    }
}

} // verus!
