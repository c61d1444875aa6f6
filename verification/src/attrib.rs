//! Who asked for which permission.
//!
//! The permission store files a native application's permission under a random
//! token and an empty application identifier. What the monitor sees on the bus
//! is kept here: which process asked for which token.
use vstd::prelude::*;
use crate::format::from_utf8_lossy;
use crate::paths;
use crate::split::{self, drop_empty, join, last_piece, split, strip_suffixes};
use crate::table::Table;
use crate::text::{self, copy_opt, decimal, first_word, trim, Text};

verus! {

/// The identity of a process.
#[derive(Debug)]
pub struct Identity {
    pub pid: Option<u32>,
    pub exe: Option<String>,
    pub cmdline: Option<String>,
    pub comm: Option<String>,
}

/// The identity of a process as the contracts see it.
pub struct IdentityView {
    pub pid: Option<u32>,
    pub exe: Option<Text>,
    pub cmdline: Option<Text>,
    pub comm: Option<Text>,
}

impl View for Identity {
    type V = IdentityView;

    open spec fn view(&self) -> IdentityView {
        IdentityView {
            pid: self.pid,
            exe: text::opt(self.exe),
            cmdline: text::opt(self.cmdline),
            comm: text::opt(self.comm),
        }
    }
}

/// A process of which nothing is known.
pub open spec fn nobody() -> IdentityView {
    IdentityView { pid: None, exe: None, cmdline: None, comm: None }
}

impl Default for Identity {
    fn default() -> (r: Self)
        ensures
            r@ == nobody(),
    {
        Identity { pid: None, exe: None, cmdline: None, comm: None }
    }
}

impl Clone for Identity {
    fn clone(&self) -> (r: Self)
        ensures
            r@ == self@,
    {
        Identity {
            pid: self.pid,
            exe: copy_opt(&self.exe),
            cmdline: copy_opt(&self.cmdline),
            comm: copy_opt(&self.comm),
        }
    }
}

/// A text, where it is not empty.
pub open spec fn unless_empty(s: Text) -> Option<Text> {
    if s.len() > 0 {
        Some(s)
    } else {
        None
    }
}

/// A string, where it is not empty.
fn keep_nonempty(s: String) -> (r: Option<String>)
    ensures
        text::opt(r) == unless_empty(s@),
{
    if s.as_str().is_empty() {
        None
    } else {
        Some(s)
    }
}

/// A command line: its arguments, which stand between nul bytes, with a space
/// between each.
pub open spec fn command_line(raw: Seq<u8>) -> Text {
    split::joined(split::nonempty(split::pieces(crate::format::lossy(raw), '\0')), " "@)
}

impl IdentityView {
    /// The name that the executable gives: its last path component, without
    /// the mark that the kernel adds once the file has been replaced.
    pub open spec fn exe_name(self) -> Text {
        match self.exe {
            Some(exe) => split::after_last(split::without_suffix(exe, " (deleted)"@), '/'),
            None => Seq::empty(),
        }
    }

    /// The first word of the command line.
    pub open spec fn first_argument(self) -> Option<Text> {
        match self.cmdline {
            Some(cmdline) => text::first_word_of(cmdline),
            None => None,
        }
    }

    /// The short name of a process: the first that is known of the executable's
    /// name, the command name, the first argument and the process number.
    pub open spec fn label(self) -> Text {
        if self.exe_name().len() > 0 {
            self.exe_name()
        } else if self.comm is Some {
            self.comm->0
        } else if self.first_argument() is Some {
            self.first_argument()->0
        } else {
            match self.pid {
                Some(pid) => "pid "@ + text::dec(pid as nat),
                None => "unknown"@,
            }
        }
    }
}

impl Identity {
    /// The identity of a process, from what `/proc` says: the target of its
    /// `exe` link, and its `cmdline` and `comm` files, each where it could be
    /// read.
    pub fn from_pid(pid: u32, exe: Option<Vec<u8>>, cmdline: Option<Vec<u8>>, comm: Option<String>) -> (r:
        Self)
        ensures
            r@ == (IdentityView {
                pid: Some(pid),
                exe: match exe {
                    Some(raw) => Some(crate::format::lossy(raw@)),
                    None => None,
                },
                cmdline: match cmdline {
                    Some(raw) => unless_empty(command_line(raw@)),
                    None => None,
                },
                comm: match comm {
                    Some(raw) => unless_empty(text::trimmed(raw@)),
                    None => None,
                },
            }),
    {
        let exe = match exe {
            Some(raw) => Some(from_utf8_lossy(raw.as_slice())),
            None => None,
        };
        let cmdline = match cmdline {
            Some(raw) => {
                let whole = from_utf8_lossy(raw.as_slice());
                let arguments = drop_empty(split(whole.as_str(), '\0'));
                keep_nonempty(join(&arguments, " "))
            },
            None => None,
        };
        let comm = match comm {
            Some(raw) => keep_nonempty(trim(raw.as_str())),
            None => None,
        };
        Identity { pid: Some(pid), exe, cmdline, comm }
    }

    /// The short name to show.
    pub fn label(&self) -> (r: String)
        ensures
            r@ == self@.label(),
    {
        if let Some(exe) = &self.exe {
            let name = last_piece(strip_suffixes(exe.as_str(), " (deleted)").as_str(), '/');
            if !name.as_str().is_empty() {
                return name;
            }
        }
        if let Some(comm) = &self.comm {
            return comm.clone();
        }
        if let Some(cmdline) = &self.cmdline {
            if let Some(first) = first_word(cmdline.as_str()) {
                return first;
            }
        }
        match self.pid {
            Some(pid) => "pid ".to_owned().concat(decimal(pid as u64).as_str()),
            None => "unknown".to_owned(),
        }
    }
}

/// An attribution.
#[derive(Debug)]
pub struct Record {
    pub identity: Identity,
    /// The table of the permission.
    pub table: String,
    pub first_seen: i64,
    pub last_seen: i64,
}

/// An attribution as the contracts see it.
pub struct RecordView {
    pub identity: IdentityView,
    pub table: Text,
    pub first_seen: i64,
    pub last_seen: i64,
}

impl View for Record {
    type V = RecordView;

    open spec fn view(&self) -> RecordView {
        RecordView {
            identity: self.identity@,
            table: self.table@,
            first_seen: self.first_seen,
            last_seen: self.last_seen,
        }
    }
}

impl Clone for Record {
    fn clone(&self) -> (r: Self)
        ensures
            r@ == self@,
    {
        Record {
            identity: self.identity.clone(),
            table: self.table.clone(),
            first_seen: self.first_seen,
            last_seen: self.last_seen,
        }
    }
}

/// The attributions, by token.
#[derive(Debug)]
pub struct Cache {
    pub tokens: Table<Record>,
}

impl View for Cache {
    type V = Map<Text, RecordView>;

    open spec fn view(&self) -> Map<Text, RecordView> {
        self.tokens@.map_values(|record: Record| record@)
    }
}

impl Default for Cache {
    fn default() -> (r: Self)
        ensures
            r@ == Map::<Text, RecordView>::empty(),
    {
        let r = Cache { tokens: Table::new() };
        proof {
            assert(r@ =~= Map::<Text, RecordView>::empty());
        }
        r
    }
}

/// The attribution of a token after one more sighting: who asked last, with
/// the table and the time of the first sighting.
pub open spec fn sighted(
    cache: Map<Text, RecordView>,
    token: Text,
    identity: IdentityView,
    table: Text,
    now: i64,
) -> RecordView {
    if cache.contains_key(token) {
        RecordView { identity, last_seen: now, ..cache[token] }
    } else {
        RecordView { identity, table, first_seen: now, last_seen: now }
    }
}

impl Cache {
    /// The attribution of a token.
    pub fn get(&self, token: &str) -> (r: Option<&Record>)
        ensures
            match r {
                Some(record) => self@.contains_key(token@) && record@ == self@[token@],
                None => !self@.contains_key(token@),
            },
    {
        self.tokens.get(token)
    }

    /// Notes that `identity` asked for `token`, and keeps the first sighting.
    pub fn observe(&mut self, token: &str, identity: Identity, table: &str, now: i64)
        ensures
            final(self)@ == old(self)@.insert(
                token@,
                sighted(old(self)@, token@, identity@, table@, now),
            ),
    {
        let record = match self.tokens.get(token) {
            Some(known) => Record {
                identity,
                table: known.table.clone(),
                first_seen: known.first_seen,
                last_seen: now,
            },
            None => Record { identity, table: table.to_owned(), first_seen: now, last_seen: now },
        };
        let ghost before = self@;
        let ghost added = record@;
        self.tokens.insert(token.to_owned(), record);
        proof {
            assert(self@ =~= before.insert(token@, added));
        }
    }
}

/// However often a token is seen again, the time and the table of its first
/// sighting stay, and the last process to ask for it is the one on record.
pub proof fn law_first_sighting_stays(
    cache: Map<Text, RecordView>,
    token: Text,
    first: IdentityView,
    first_table: Text,
    first_time: i64,
    second: IdentityView,
    second_table: Text,
    second_time: i64,
)
    ensures
        ({
            let once = cache.insert(token, sighted(cache, token, first, first_table, first_time));
            let twice = once.insert(token, sighted(once, token, second, second_table, second_time));
            &&& twice[token].first_seen == once[token].first_seen
            &&& twice[token].table == once[token].table
            &&& twice[token].last_seen == second_time
            &&& twice[token].identity == second
            &&& !cache.contains_key(token) ==> twice[token].first_seen == first_time
                && twice[token].table == first_table
        }),
{
}

/// A sighting of one token leaves the attributions of all others alone.
pub proof fn law_sighting_is_local(
    cache: Map<Text, RecordView>,
    token: Text,
    identity: IdentityView,
    table: Text,
    now: i64,
    other: Text,
)
    requires
        other != token,
    ensures
        ({
            let after = cache.insert(token, sighted(cache, token, identity, table, now));
            &&& after.contains_key(other) == cache.contains_key(other)
            &&& cache.contains_key(other) ==> after[other] == cache[other]
        }),
{
}

/// Where the attributions are kept.
pub open spec fn cache_file(xdg_state_home: Option<Seq<u8>>, home: Option<Seq<u8>>) -> Seq<u8> {
    paths::path_join(
        paths::path_join(
            paths::base_dir(
                xdg_state_home,
                home,
                paths::bytes(".local"),
                Some(paths::bytes("state")),
            ),
            paths::bytes("wayward"),
        ),
        paths::bytes("attribution.json"),
    )
}

/// Where the attributions are kept, given `XDG_STATE_HOME` and `HOME`.
pub fn cache_path(xdg_state_home: Option<Vec<u8>>, home: Option<Vec<u8>>) -> (r: Vec<u8>)
    ensures
        r@ == cache_file(text::opt(xdg_state_home), text::opt(home)),
{
    let base = paths::base(xdg_state_home, home, ".local", Some("state"));
    paths::join(paths::join(base, "wayward"), "attribution.json")
}

// ---------------------------------------------------------------------------
// What a process is called
// ---------------------------------------------------------------------------
/// A process is called what its executable is called, wherever that stands, and
/// also once the file has been replaced under it.
pub proof fn law_called_after_the_executable(identity: IdentityView, dir: Text, name: Text)
    requires
        name.len() > 0,
        !name.contains('/'),
        !" (deleted)"@.is_suffix_of(name),
        !" (deleted)"@.is_suffix_of(dir.push('/') + name),
    ensures
        identity.exe == Some(name) ==> identity.label() == name,
        identity.exe == Some(dir.push('/') + name) ==> identity.label() == name,
        identity.exe == Some(dir.push('/') + name + " (deleted)"@) ==> identity.label() == name,
{
    reveal_strlit(" (deleted)");
    assert(" (deleted)"@.len() == 10);
    split::law_the_last_piece(dir, name, '/');
    split::law_suffixes_come_off(dir.push('/') + name, " (deleted)"@);
    split::law_suffixes_come_off(name, " (deleted)"@);
}

/// Where the executable is not known, a process is called by its command name,
/// else by the first word of its command line, else by its number, and where
/// nothing is known of it, unknown.
pub proof fn law_called_after_what_is_known(identity: IdentityView, word: Text, rest: Text)
    requires
        identity.exe is None,
        word.len() > 0,
        forall|k: int| 0 <= k < word.len() ==> !text::is_space(#[trigger] word[k]),
    ensures
        identity.comm matches Some(comm) ==> identity.label() == comm,
        identity.comm is None && identity.cmdline == Some(word) ==> identity.label() == word,
        identity.comm is None && identity.cmdline == Some(word + " "@ + rest) ==> identity.label()
            == word,
        identity.comm is None && identity.cmdline is None ==> identity.label() == match identity.pid {
            Some(pid) => "pid "@ + text::dec(pid as nat),
            None => "unknown"@,
        },
{
    reveal_strlit(" ");
    assert(" "@.len() == 1 && " "@[0] == ' ');
    let none = Seq::<char>::empty();
    text::law_the_first_word(none, word, none);
    assert(none + word + none =~= word);
    text::law_the_first_word(none, word, " "@ + rest);
    assert(none + word + (" "@ + rest) =~= word + " "@ + rest);
}

/// Arguments with a nul byte after each, as the kernel keeps them.
pub open spec fn nul_ended(arguments: Seq<Text>) -> Text
    decreases arguments.len(),
{
    if arguments.len() == 0 {
        Seq::empty()
    } else {
        arguments[0].push('\0') + nul_ended(arguments.drop_first())
    }
}

/// A command line is shown as its arguments, in order, with spaces between them.
pub proof fn law_arguments_are_kept(raw: Seq<u8>, arguments: Seq<Text>)
    requires
        crate::format::lossy(raw) == nul_ended(arguments),
        forall|i: int|
            0 <= i < arguments.len() ==> (#[trigger] arguments[i]).len() > 0 && !arguments[i].contains(
                '\0',
            ),
    ensures
        command_line(raw) == split::joined(arguments, " "@),
{
    lemma_arguments(arguments);
}

proof fn lemma_arguments(arguments: Seq<Text>)
    requires
        forall|i: int|
            0 <= i < arguments.len() ==> (#[trigger] arguments[i]).len() > 0 && !arguments[i].contains(
                '\0',
            ),
    ensures
        split::nonempty(split::pieces(nul_ended(arguments), '\0')) == arguments,
    decreases arguments.len(),
{
    if arguments.len() == 0 {
        let parts = split::pieces(nul_ended(arguments), '\0');
        assert(parts =~= seq![Seq::<char>::empty()]);
        assert(parts.drop_last() =~= Seq::<Text>::empty());
        assert(parts.last() == Seq::<char>::empty());
        assert(split::nonempty(Seq::<Text>::empty()) =~= arguments);
    } else {
        let rest = arguments.drop_first();
        assert forall|i: int| 0 <= i < rest.len() implies (#[trigger] rest[i]).len() > 0 && !rest[i].contains(
            '\0',
        ) by {
            assert(rest[i] == arguments[i + 1]);
        }
        lemma_arguments(rest);
        split::lemma_pieces_after(arguments[0], nul_ended(rest), '\0');
        split::lemma_nonempty_first(arguments[0], split::pieces(nul_ended(rest), '\0'));
        assert(seq![arguments[0]] + rest =~= arguments);
    }
}

/// The attributions are kept in a directory of their own below the one that the
/// environment names, or else below the user's own.
pub proof fn law_where_attributions_are_kept(dir: Seq<u8>, home: Option<Seq<u8>>, own: Seq<u8>)
    requires
        dir.len() > 0,
    ensures
        cache_file(Some(dir), home) == paths::path_join(
            paths::path_join(dir, paths::bytes("wayward")),
            paths::bytes("attribution.json"),
        ),
        cache_file(None, Some(own)) == paths::path_join(
            paths::path_join(
                paths::path_join(
                    paths::path_join(own, paths::bytes(".local")),
                    paths::bytes("state"),
                ),
                paths::bytes("wayward"),
            ),
            paths::bytes("attribution.json"),
        ),
        cache_file(Some(Seq::empty()), Some(own)) == cache_file(None, Some(own)),
{
}

/// What is blank counts as not known.
pub proof fn law_blank_is_not_known(s: Text)
    ensures
        s.len() == 0 ==> unless_empty(s) is None,
        s.len() > 0 ==> unless_empty(s) == Some(s),
        nobody().label() == "unknown"@,
{
    assert(nobody().exe_name().len() == 0);
}

} // verus!
