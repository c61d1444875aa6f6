//! Revoking permissions.
use vstd::prelude::*;
use crate::attrib::{Cache, RecordView};
use crate::clock::now;
use crate::format::to_lowercase;
use crate::history::{self, History, Revocation};
use crate::render::{self, plural};
use crate::report::Lines;
use crate::store::{Entry, EntryView};
use crate::style::{self, bold, dimmed, green};
use crate::text::{self, decimal, same, trim, Text};

verus! {

// ---------------------------------------------------------------------------
// Asking
// ---------------------------------------------------------------------------
/// The answers that confirm, in small letters: a yes in Spanish counts as one
/// in English.
pub open spec fn confirms(answer: Text) -> bool {
    answer == "y"@ || answer == "yes"@ || answer == "s"@ || answer == "si"@ || answer == "sí"@
}

/// Whether an answer in small letters confirms.
pub fn is_yes(answer: &str) -> (r: bool)
    ensures
        r == confirms(answer@),
{
    same(answer, "y") || same(answer, "yes") || same(answer, "s") || same(answer, "si") || same(
        answer,
        "sí",
    )
}

/// Whether an answer confirms, in letters of either case and with white space
/// around it.
pub fn is_affirmative(answer: &str) -> (r: bool)
    ensures
        r == confirms(crate::format::lowercase(text::trimmed(answer@))),
        vstd::utf8::is_ascii_chars(text::trimmed(answer@)) ==> r == confirms(
            text::trimmed(answer@).map_values(|c: char| crate::format::ascii_small(c)),
        ),
{
    let bare = trim(answer);
    let lowered = to_lowercase(bare.as_str());
    is_yes(lowered.as_str())
}

// ---------------------------------------------------------------------------
// What to revoke
// ---------------------------------------------------------------------------
/// What was asked to be revoked.
pub enum Scope {
    /// The permission of a token.
    Token(String),
    /// Every permission of a table.
    Table(String),
}

/// What was asked to be revoked, as the contracts see it.
pub enum ScopeView {
    Token(Text),
    Table(Text),
}

impl View for Scope {
    type V = ScopeView;

    open spec fn view(&self) -> ScopeView {
        match self {
            Scope::Token(token) => ScopeView::Token(token@),
            Scope::Table(table) => ScopeView::Table(table@),
        }
    }
}

/// What is asked to be revoked: a token goes before a table, and one of the
/// two has to be given.
pub fn scope(token: Option<String>, table: Option<String>) -> (r: Result<Scope, String>)
    ensures
        match r {
            Ok(scope) => match (token, table) {
                (Some(token), _) => scope@ == ScopeView::Token(token@),
                (None, Some(table)) => scope@ == ScopeView::Table(table@),
                (None, None) => false,
            },
            Err(message) => token is None && table is None && message@
                == "give a token, or a table with --table"@,
        },
{
    match (token, table) {
        (Some(token), _) => Ok(Scope::Token(token)),
        (None, Some(table)) => Ok(Scope::Table(table)),
        (None, None) => Err("give a token, or a table with --table".to_owned()),
    }
}

impl Scope {
    /// The table to read, where a single one is enough.
    pub fn only(&self) -> (r: Option<&str>)
        ensures
            text::opt(r) == match self@ {
                ScopeView::Token(_) => None,
                ScopeView::Table(table) => Some(table),
            },
    {
        match self {
            Scope::Token(_) => None,
            Scope::Table(table) => Some(table.as_str()),
        }
    }
}

/// The rows of a token.
pub open spec fn with_token(entries: Seq<EntryView>, token: Text) -> Seq<EntryView>
    decreases entries.len(),
{
    if entries.len() == 0 {
        Seq::empty()
    } else {
        let before = with_token(entries.drop_last(), token);
        if entries.last().id == token {
            before.push(entries.last())
        } else {
            before
        }
    }
}

/// The rows to revoke, of those that were read for it.
pub open spec fn chosen(scope: ScopeView, entries: Seq<EntryView>) -> Seq<EntryView> {
    match scope {
        ScopeView::Token(token) => with_token(entries, token),
        ScopeView::Table(_) => entries,
    }
}

/// What is said where there is nothing to revoke.
pub open spec fn nothing_found(scope: ScopeView) -> Text {
    match scope {
        ScopeView::Token(token) => "no permission found with token \""@ + token + "\""@,
        ScopeView::Table(table) => "table \""@ + table + "\" has no permissions to revoke"@,
    }
}

/// The rows of a token.
fn find_token(entries: &Vec<Entry>, token: &str) -> (r: Vec<Entry>)
    ensures
        text::views(r@) == with_token(text::views(entries@), token@),
{
    broadcast use crate::text::group_views;

    let ghost all = text::views(entries@);
    let mut out: Vec<Entry> = Vec::new();
    let mut i: usize = 0;
    proof {
        assert(all.take(0) =~= Seq::empty());
    }
    while i < entries.len()
        invariant
            i <= entries@.len(),
            all == text::views(entries@),
            text::views(out@) == with_token(all.take(i as int), token@),
        decreases entries@.len() - i,
    {
        proof {
            assert(all.take(i + 1).drop_last() =~= all.take(i as int));
            assert(all.take(i + 1).last() == entries@[i as int]@);
        }
        if same(entries[i].id.as_str(), token) {
            out.push(entries[i].clone());
        }
        i = i + 1;
    }
    proof {
        assert(all.take(i as int) =~= all);
    }
    out
}

/// The rows to revoke, of those that were read for it. It is an error if there
/// are none.
pub fn targets(scope: &Scope, entries: Vec<Entry>) -> (r: Result<Vec<Entry>, String>)
    ensures
        match r {
            Ok(list) => text::views(list@) == chosen(scope@, text::views(entries@)) && list@.len() > 0,
            Err(message) => chosen(scope@, text::views(entries@)).len() == 0 && message@
                == nothing_found(scope@),
        },
{
    match scope {
        Scope::Token(token) => {
            let found = find_token(&entries, token.as_str());
            proof {
                assert(text::views(found@).len() == found@.len());
            }
            if found.len() == 0 {
                Err(
                    "no permission found with token \"".to_owned().concat(token.as_str()).concat(
                        "\"",
                    ),
                )
            } else {
                Ok(found)
            }
        },
        Scope::Table(table) => {
            if entries.len() == 0 {
                Err(
                    "table \"".to_owned().concat(table.as_str()).concat(
                        "\" has no permissions to revoke",
                    ),
                )
            } else {
                Ok(entries)
            }
        },
    }
}

/// Only rows of the token are revoked, and all of them are.
pub proof fn law_only_the_token_is_revoked(entries: Seq<EntryView>, token: Text, e: EntryView)
    ensures
        with_token(entries, token).contains(e) <==> entries.contains(e) && e.id == token,
    decreases entries.len(),
{
    if entries.len() > 0 {
        let rest = entries.drop_last();
        let last = entries.last();
        let before = with_token(rest, token);
        let all = with_token(entries, token);
        law_only_the_token_is_revoked(rest, token, e);
        if all.contains(e) {
            let k = choose|k: int| 0 <= k < all.len() && all[k] == e;
            if k < before.len() {
                assert(before[k] == e);
                let j = choose|j: int| 0 <= j < rest.len() && rest[j] == e;
                assert(entries[j] == e);
            } else {
                assert(entries[entries.len() - 1] == e);
            }
        }
        if entries.contains(e) && e.id == token {
            let j = choose|j: int| 0 <= j < entries.len() && entries[j] == e;
            if j < rest.len() {
                assert(rest[j] == e);
                let k = choose|k: int| 0 <= k < before.len() && before[k] == e;
                assert(all[k] == e);
            } else {
                assert(all[all.len() - 1] == e);
            }
        }
    }
}

// ---------------------------------------------------------------------------
// Announcing
// ---------------------------------------------------------------------------
/// Whom a row that is to be revoked is attributed to.
pub open spec fn holder(e: EntryView, cache: Map<Text, RecordView>) -> Text {
    if cache.contains_key(e.id) {
        cache[e.id].identity.label()
    } else {
        "unattributed"@
    }
}

/// The lines with those of some rows that are to be revoked added.
pub open spec fn with_targets(l: Seq<Text>, list: Seq<EntryView>, cache: Map<Text, RecordView>) -> Seq<
    Text,
>
    decreases list.len(),
{
    if list.len() == 0 {
        l
    } else {
        let e = list.last();
        with_targets(l, list.drop_last(), cache).push(
            "    "@ + style::in_bold(e.table) + "  "@ + e.id + "  ("@ + holder(e, cache) + ")"@,
        )
    }
}

/// The lines that announce what is going to be revoked.
pub open spec fn announcement_of(list: Seq<EntryView>, cache: Map<Text, RecordView>) -> Seq<Text> {
    let heading = "\n  "@ + text::dec(list.len()) + " "@ + render::noun(
        list.len(),
        "permission"@,
        "permissions"@,
    ) + " will be revoked:\n"@;
    with_targets(seq![heading], list, cache).push(""@)
}

/// The lines that announce what is going to be revoked.
pub fn announcement(targets: &Vec<Entry>, cache: &Cache) -> (r: Vec<String>)
    ensures
        text::views(r@) == announcement_of(text::views(targets@), cache@),
{
    let ghost all = text::views(targets@);
    let n = targets.len();
    let heading = "\n  ".to_owned().concat(decimal(n as u64).as_str()).concat(" ").concat(
        plural(n, "permission", "permissions").as_str(),
    ).concat(" will be revoked:\n");
    let ghost first = seq![heading@];
    let mut out = Lines::new();
    out.line(heading);
    proof {
        assert(out@ =~= first);
        assert(all.take(0) =~= Seq::empty());
    }
    let mut i: usize = 0;
    while i < n
        invariant
            i <= n,
            n == targets@.len(),
            all == text::views(targets@),
            out@ == with_targets(first, all.take(i as int), cache@),
        decreases n - i,
    {
        proof {
            assert(all.take(i + 1).drop_last() =~= all.take(i as int));
            assert(all.take(i + 1).last() == targets@[i as int]@);
        }
        let e = &targets[i];
        let who = match cache.get(e.id.as_str()) {
            Some(record) => record.identity.label(),
            None => "unattributed".to_owned(),
        };
        out.line(
            "    ".to_owned().concat(bold(e.table.as_str()).as_str()).concat("  ").concat(
                e.id.as_str(),
            ).concat("  (").concat(who.as_str()).concat(")"),
        );
        i = i + 1;
    }
    proof {
        assert(all.take(i as int) =~= all);
    }
    out.line("".to_owned());
    out.list
}

/// What comes after the announcement.
#[derive(Debug, Clone, Copy, PartialEq, Eq, Structural)]
pub enum Next {
    /// Nothing: it was only to be shown.
    Stop,
    /// The user is asked.
    Ask,
    /// The permissions are revoked.
    Proceed,
}

/// What comes after the announcement. A rehearsal goes before a confirmation
/// given in advance.
pub fn next_step(dry_run: bool, yes: bool) -> (r: Next)
    ensures
        r == if dry_run {
            Next::Stop
        } else if yes {
            Next::Proceed
        } else {
            Next::Ask
        },
{
    if dry_run {
        Next::Stop
    } else if yes {
        Next::Proceed
    } else {
        Next::Ask
    }
}

/// What is said at the end of a rehearsal.
pub fn rehearsed() -> (r: String)
    ensures
        r@ == "  "@ + style::in_dim("--dry-run:"@) + " nothing was touched.\n"@,
{
    "  ".to_owned().concat(dimmed("--dry-run:").as_str()).concat(" nothing was touched.\n")
}

// ---------------------------------------------------------------------------
// Revoking
// ---------------------------------------------------------------------------
/// Permissions that are being revoked, one after the other.
pub struct Revoker {
    targets: Vec<Entry>,
    cache: Cache,
    history: History,
    done: usize,
    waiting: bool,
}

/// Permissions that are being revoked, as the contracts see it: the first
/// `done` rows have been handed out, and while `waiting`, nothing has been
/// heard yet of the last of them.
pub struct RevokerView {
    pub targets: Seq<EntryView>,
    pub cache: Map<Text, RecordView>,
    pub history: Seq<history::RevocationView>,
    pub done: nat,
    pub waiting: bool,
}

impl View for Revoker {
    type V = RevokerView;

    closed spec fn view(&self) -> RevokerView {
        RevokerView {
            targets: text::views(self.targets@),
            cache: self.cache@,
            history: self.history@,
            done: self.done as nat,
            waiting: self.waiting,
        }
    }
}

/// A row to delete from the store.
#[derive(Debug)]
pub struct Deletion {
    pub table: String,
    pub id: String,
}

impl RevokerView {
    /// After one more row has been taken down at a given time.
    pub open spec fn after(self, at: i64) -> RevokerView {
        RevokerView {
            history: self.history.push(
                history::snapshot(self.targets[self.done as int], self.cache, at),
            ),
            done: self.done + 1,
            waiting: true,
            ..self
        }
    }

    /// After some more rows have been taken down, one at each of the times.
    pub open spec fn after_all(self, times: Seq<i64>) -> RevokerView
        decreases times.len(),
    {
        if times.len() == 0 {
            self
        } else {
            self.after_all(times.drop_last()).after(times.last())
        }
    }

    /// What was known of the next rows, each taken down at its time.
    pub open spec fn snapshots(self, times: Seq<i64>) -> Seq<history::RevocationView> {
        Seq::new(
            times.len(),
            |i: int| history::snapshot(self.targets[self.done + i], self.cache, times[i]),
        )
    }

    /// After the deletion of the last row has failed: that row is the next one
    /// again, and what was taken down of it is gone from the log.
    pub open spec fn after_failure(self) -> RevokerView {
        if self.waiting && self.done > 0 && self.history.len() > 0 {
            RevokerView {
                history: self.history.drop_last(),
                done: (self.done - 1) as nat,
                waiting: false,
                ..self
            }
        } else {
            self
        }
    }

    /// After the last row has been deleted, with none left.
    pub open spec fn at_rest(self) -> RevokerView {
        RevokerView { waiting: false, ..self }
    }
}

impl Revoker {
    /// Starts with the log as it stands.
    pub fn new(targets: Vec<Entry>, cache: Cache, history: History) -> (r: Self)
        ensures
            r@ == (RevokerView {
                targets: text::views(targets@),
                cache: cache@,
                history: history@,
                done: 0,
                waiting: false,
            }),
    {
        Revoker { targets, cache, history, done: 0, waiting: false }
    }

    /// The next row to delete, if there is one more. To ask for it says that
    /// the one before it has been deleted. What is known of it has been added to
    /// the log by then: once it is deleted, it is too late.
    pub fn next_at(&mut self, at: i64) -> (r: Option<Deletion>)
        ensures
            match r {
                Some(deletion) => {
                    &&& old(self)@.done < old(self)@.targets.len()
                    &&& final(self)@ == old(self)@.after(at)
                    &&& deletion.table@ == old(self)@.targets[old(self)@.done as int].table
                    &&& deletion.id@ == old(self)@.targets[old(self)@.done as int].id
                },
                None => old(self)@.done >= old(self)@.targets.len() && final(self)@
                    == old(self)@.at_rest(),
            },
    {
        if self.done >= self.targets.len() {
            self.waiting = false;
            return None;
        }
        let entry = &self.targets[self.done];
        let revocation = Revocation::of(entry, &self.cache, at);
        let deletion = Deletion { table: entry.table.clone(), id: entry.id.clone() };
        self.history.record(revocation);
        self.done = self.done + 1;
        self.waiting = true;
        Some(deletion)
    }

    /// The next row to delete, taken down at the current time.
    pub fn next(&mut self) -> (r: Option<Deletion>)
        ensures
            match r {
                Some(deletion) => {
                    &&& old(self)@.done < old(self)@.targets.len()
                    &&& exists|at: i64| final(self)@ == #[trigger] old(self)@.after(at)
                    &&& deletion.table@ == old(self)@.targets[old(self)@.done as int].table
                    &&& deletion.id@ == old(self)@.targets[old(self)@.done as int].id
                },
                None => old(self)@.done >= old(self)@.targets.len() && final(self)@
                    == old(self)@.at_rest(),
            },
    {
        let at: i64 = now();
        self.next_at(at)
    }

    /// Takes the last row back, as it could not be deleted: the log holds only
    /// what was revoked.
    pub fn on_failed(&mut self)
        ensures
            final(self)@ == old(self)@.after_failure(),
    {
        if self.waiting && self.done > 0 && self.history.revocations.len() > 0 {
            self.history.revocations.pop();
            self.done = self.done - 1;
            self.waiting = false;
            proof {
                assert(self.history@ =~= old(self).history@.drop_last());
            }
        }
    }

    /// The log.
    pub fn history(&self) -> (r: &History)
        ensures
            r@ == self@.history,
    {
        &self.history
    }
}

/// What is said where a row could not be deleted.
pub fn not_deleted(deletion: &Deletion) -> (r: String)
    ensures
        r@ == "could not delete \""@ + deletion.id@ + "\" from \""@ + deletion.table@ + "\""@,
{
    "could not delete \"".to_owned().concat(deletion.id.as_str()).concat("\" from \"").concat(
        deletion.table.as_str(),
    ).concat("\"")
}

/// The lines that close a revocation of `n` permissions.
pub open spec fn closing_of(n: nat) -> Seq<Text> {
    seq![
        "  "@ + style::in_green("✓"@) + " "@ + text::dec(n) + " "@ + render::noun(
            n,
            "permission"@,
            "permissions"@,
        ) + " revoked.\n"@,
        "  "@ + style::in_dim(
            "The application will ask for permission again next time it needs it."@,
        ) + "\n"@,
    ]
}

/// The lines that close a revocation of `n` permissions.
pub fn closing(n: usize) -> (r: Vec<String>)
    ensures
        text::views(r@) == closing_of(n as nat),
{
    let mut out = Lines::new();
    out.line(
        "  ".to_owned().concat(green("✓").as_str()).concat(" ").concat(
            decimal(n as u64).as_str(),
        ).concat(" ").concat(plural(n, "permission", "permissions").as_str()).concat(" revoked.\n"),
    );
    out.line(
        "  ".to_owned().concat(
            dimmed("The application will ask for permission again next time it needs it.").as_str(),
        ).concat("\n"),
    );
    proof {
        assert(out@ =~= closing_of(n as nat));
    }
    out.list
}

/// After any number of rows have been taken down, the log holds what was known
/// of each of them, in their order and behind everything that it held before.
pub proof fn law_snapshot_before_deletion(revoker: RevokerView, times: Seq<i64>)
    requires
        revoker.done + times.len() <= revoker.targets.len(),
    ensures
        revoker.after_all(times).history == revoker.history + revoker.snapshots(times),
        revoker.after_all(times).done == revoker.done + times.len(),
        revoker.after_all(times).targets == revoker.targets,
        revoker.after_all(times).cache == revoker.cache,
    decreases times.len(),
{
    if times.len() == 0 {
        assert(revoker.history + revoker.snapshots(times) =~= revoker.history);
    } else {
        let before = times.drop_last();
        law_snapshot_before_deletion(revoker, before);
        assert(revoker.history + revoker.snapshots(times) =~= (revoker.history + revoker.snapshots(
            before,
        )).push(
            history::snapshot(
                revoker.targets[(revoker.done + before.len()) as int],
                revoker.cache,
                times.last(),
            ),
        ));
    }
}

/// Where a deletion fails, the log holds what was known of exactly the rows
/// that were deleted, in their order and behind everything that it held before.
pub proof fn law_failure_keeps_what_was_revoked(revoker: RevokerView, times: Seq<i64>, failed: i64)
    requires
        revoker.done + times.len() < revoker.targets.len(),
    ensures
        ({
            let left = revoker.after_all(times).after(failed).after_failure();
            &&& left.history == revoker.history + revoker.snapshots(times)
            &&& left.done == revoker.done + times.len()
            &&& left.targets == revoker.targets
            &&& left.cache == revoker.cache
            &&& left.after_failure() == left
        }),
{
    law_snapshot_before_deletion(revoker, times);
    let deleted = revoker.after_all(times);
    assert(deleted.after(failed).history.drop_last() =~= deleted.history);
}

// ---------------------------------------------------------------------------
// What the user is asked and told
// ---------------------------------------------------------------------------
/// What counts as a yes, with the answers spelled out: a plain return, a no, or
/// anything else does not.
pub proof fn law_only_a_yes_confirms(answer: Text)
    ensures
        confirms(answer) ==> answer.len() > 0 && (answer[0] == 'y' || answer[0] == 's'),
        confirms(answer) <==> answer == seq!['y'] || answer == seq!['y', 'e', 's'] || answer == seq![
            's',
        ] || answer == seq!['s', 'i'] || answer == seq!['s', 'í'],
        !confirms(Seq::empty()),
        !confirms(seq!['n']) && !confirms(seq!['n', 'o']),
{
    reveal_strlit("y");
    reveal_strlit("yes");
    reveal_strlit("s");
    reveal_strlit("si");
    reveal_strlit("sí");
    assert("y"@ =~= seq!['y']);
    assert("yes"@ =~= seq!['y', 'e', 's']);
    assert("s"@ =~= seq!['s']);
    assert("si"@ =~= seq!['s', 'i']);
    assert("sí"@ =~= seq!['s', 'í']);
    assert(seq!['n'][0] == 'n');
    assert(seq!['n', 'o'][0] == 'n');
}

/// What is revoked of a table is every row that was read of it, and of a token
/// every row that has it, in the order of the list and each as often.
pub proof fn law_what_is_revoked(entries: Seq<EntryView>, more: EntryView, token: Text, table: Text)
    ensures
        chosen(ScopeView::Table(table), entries) == entries,
        chosen(ScopeView::Token(token), Seq::empty()) == Seq::<EntryView>::empty(),
        chosen(ScopeView::Token(token), entries.push(more)) == if more.id == token {
            chosen(ScopeView::Token(token), entries).push(more)
        } else {
            chosen(ScopeView::Token(token), entries)
        },
{
    assert(entries.push(more).drop_last() =~= entries);
}

/// Before anything is deleted, every row that will be is announced: there is a
/// line for each, in order, with its table, its token and whom it is attributed
/// to.
#[verifier::rlimit(50)]
pub proof fn law_every_target_is_announced(
    list: Seq<EntryView>,
    cache: Map<Text, RecordView>,
    i: int,
)
    requires
        0 <= i < list.len(),
    ensures
        ({
            let said = announcement_of(list, cache);
            let line = said[i + 1];
            &&& said.len() == list.len() + 2
            &&& crate::split::occurs_in(said[0], text::dec(list.len()))
            &&& crate::split::occurs_in(line, list[i].table)
            &&& crate::split::occurs_in(line, list[i].id)
            &&& cache.contains_key(list[i].id) ==> crate::split::occurs_in(
                line,
                cache[list[i].id].identity.label(),
            )
            &&& !cache.contains_key(list[i].id) ==> crate::split::occurs_in(line, "unattributed"@)
        }),
{
    broadcast use crate::split::group_occurs;

    let first = seq![
        "\n  "@ + text::dec(list.len()) + " "@ + render::noun(
            list.len(),
            "permission"@,
            "permissions"@,
        ) + " will be revoked:\n"@,
    ];
    lemma_targets(first, list, cache, i);
    lemma_targets_before(first, list, cache);
    let lines = with_targets(first, list, cache);
    assert(lines.take(1)[0] == first[0]);
    assert(announcement_of(list, cache) == lines.push(""@));
    assert(lines.push(""@)[0] == lines[0]);
    assert(lines.push(""@)[i + 1] == lines[i + 1]);
}

/// The line of each row that is to be revoked.
proof fn lemma_targets(l: Seq<Text>, list: Seq<EntryView>, cache: Map<Text, RecordView>, i: int)
    requires
        0 <= i < list.len(),
    ensures
        with_targets(l, list, cache).len() == l.len() + list.len(),
        with_targets(l, list, cache)[l.len() + i] == "    "@ + style::in_bold(list[i].table) + "  "@
            + list[i].id + "  ("@ + holder(list[i], cache) + ")"@,
    decreases list.len(),
{
    if list.len() > 1 {
        lemma_targets(
            l,
            list.drop_last(),
            cache,
            if i < list.len() - 1 {
                i
            } else {
                0
            },
        );
    } else {
        assert(with_targets(l, list.drop_last(), cache) == l);
    }
}

/// The lines that were there stay in front.
proof fn lemma_targets_before(l: Seq<Text>, list: Seq<EntryView>, cache: Map<Text, RecordView>)
    ensures
        l.is_prefix_of(with_targets(l, list, cache)),
    decreases list.len(),
{
    if list.len() > 0 {
        lemma_targets_before(l, list.drop_last(), cache);
        let before = with_targets(l, list.drop_last(), cache);
        let all = with_targets(l, list, cache);
        assert(all.take(l.len() as int) =~= before.take(l.len() as int));
    } else {
        assert(l.take(l.len() as int) =~= l);
    }
}

/// A failure names the row that is still there, and the end names how many are
/// gone.
pub proof fn law_the_outcome_is_told(n: nat)
    ensures
        closing_of(n).len() == 2,
        crate::split::occurs_in(closing_of(n)[0], text::dec(n)),
        n == 1 ==> crate::split::occurs_in(closing_of(n)[0], "permission"@),
        n != 1 ==> crate::split::occurs_in(closing_of(n)[0], "permissions"@),
{
    broadcast use crate::split::group_occurs;

}

/// Where there is nothing to revoke, what was asked for is named.
pub proof fn law_what_was_not_found_is_named(name: Text)
    ensures
        crate::split::occurs_in(nothing_found(ScopeView::Token(name)), name),
        crate::split::occurs_in(nothing_found(ScopeView::Table(name)), name),
        "no permission found with token "@.is_prefix_of(nothing_found(ScopeView::Token(name))),
        "table "@.is_prefix_of(nothing_found(ScopeView::Table(name))),
{
    broadcast use crate::split::group_occurs;

    reveal_strlit("no permission found with token ");
    reveal_strlit("no permission found with token \"");
    reveal_strlit("table ");
    reveal_strlit("table \"");
    let a = "no permission found with token "@;
    let b = "table "@;
    assert(a.len() == 31 && "no permission found with token \""@.len() == 32);
    assert(b.len() == 6 && "table \""@.len() == 7);
    assert("no permission found with token \""@.take(31) =~= a);
    assert("table \""@.take(6) =~= b);
    let x = nothing_found(ScopeView::Token(name));
    let y = nothing_found(ScopeView::Table(name));
    assert(x.take(31) =~= "no permission found with token \""@.take(31));
    assert(y.take(6) =~= "table \""@.take(6));
}

} // verus!
