//! The log of what was revoked.
//!
//! A row that is deleted from the permission store is gone: neither the portal
//! nor the system keeps that it ever existed. So the log keeps everything that
//! was known when it was deleted, because none of it can be found out later.
use vstd::prelude::*;
use crate::attrib::{Cache, RecordView};
use crate::order::{self, order_of};
use crate::paths;
use crate::store::{self, Entry, EntryView};
use crate::text::{self, copy_opt, copy_pairs, Text};

verus! {

/// A permission that was there and is no more.
#[derive(Debug)]
pub struct Revocation {
    pub token: String,
    pub table: String,
    /// Whom it was attributed to, where that was known.
    pub app: Option<String>,
    pub exe: Option<String>,
    /// When it was granted, where the table kept that.
    pub issued_at: Option<i64>,
    pub revoked_at: i64,
    /// What the data of the row said, as label and value.
    pub details: Vec<(String, String)>,
}

/// A revocation as the contracts see it.
pub struct RevocationView {
    pub token: Text,
    pub table: Text,
    pub app: Option<Text>,
    pub exe: Option<Text>,
    pub issued_at: Option<i64>,
    pub revoked_at: i64,
    pub details: Seq<(Text, Text)>,
}

impl View for Revocation {
    type V = RevocationView;

    open spec fn view(&self) -> RevocationView {
        RevocationView {
            token: self.token@,
            table: self.table@,
            app: text::opt(self.app),
            exe: text::opt(self.exe),
            issued_at: self.issued_at,
            revoked_at: self.revoked_at,
            details: text::views(self.details@),
        }
    }
}

impl Clone for Revocation {
    fn clone(&self) -> (r: Self)
        ensures
            r@ == self@,
    {
        Revocation {
            token: self.token.clone(),
            table: self.table.clone(),
            app: copy_opt(&self.app),
            exe: copy_opt(&self.exe),
            issued_at: self.issued_at,
            revoked_at: self.revoked_at,
            details: copy_pairs(&self.details),
        }
    }
}

/// Whom a row belongs to: whoever its token is attributed to, or else the first
/// of its identified applications.
pub open spec fn owner(entry: EntryView, cache: Map<Text, RecordView>) -> Option<Text> {
    let apps = store::identified(entry.permissions);
    if cache.contains_key(entry.id) {
        Some(cache[entry.id].identity.label())
    } else if apps.len() > 0 {
        Some(apps[0])
    } else {
        None
    }
}

/// What is kept of a row that is deleted at a given time.
pub open spec fn snapshot(entry: EntryView, cache: Map<Text, RecordView>, at: i64) -> RevocationView {
    RevocationView {
        token: entry.id,
        table: entry.table,
        app: owner(entry, cache),
        exe: if cache.contains_key(entry.id) {
            cache[entry.id].identity.exe
        } else {
            None
        },
        issued_at: entry.issued_at,
        revoked_at: at,
        details: entry.details,
    }
}

impl Revocation {
    /// Takes down what is known of a row before it is deleted.
    pub fn of(entry: &Entry, cache: &Cache, at: i64) -> (r: Self)
        ensures
            r@ == snapshot(entry@, cache@, at),
    {
        let record = cache.get(entry.id.as_str());
        let app = match record {
            Some(record) => Some(record.identity.label()),
            None => {
                let apps = entry.apps();
                if apps.len() > 0 {
                    Some(apps[0].clone())
                } else {
                    None
                }
            },
        };
        let exe = match record {
            Some(record) => copy_opt(&record.identity.exe),
            None => None,
        };
        Revocation {
            token: entry.id.clone(),
            table: entry.table.clone(),
            app,
            exe,
            issued_at: entry.issued_at,
            revoked_at: at,
            details: copy_pairs(&entry.details),
        }
    }
}

/// The log.
#[derive(Debug)]
pub struct History {
    /// In the order in which they were made.
    pub revocations: Vec<Revocation>,
}

impl View for History {
    type V = Seq<RevocationView>;

    open spec fn view(&self) -> Seq<RevocationView> {
        text::views(self.revocations@)
    }
}

impl Default for History {
    fn default() -> (r: Self)
        ensures
            r@ == Seq::<RevocationView>::empty(),
    {
        broadcast use crate::text::group_views;

        let revocations: Vec<Revocation> = Vec::new();
        History { revocations }
    }
}

/// What revocations are ordered by: the later ones come first.
pub open spec fn age_keys(log: Seq<RevocationView>) -> Seq<Seq<int>> {
    Seq::new(log.len(), |i: int| seq![-(log[i].revoked_at as int)])
}

/// The log with the latest revocation first; those made at the same time keep
/// their order.
pub open spec fn latest_first(log: Seq<RevocationView>) -> Seq<RevocationView> {
    order::arranged(log, order::stable_order(age_keys(log)))
}

impl History {
    /// Adds a revocation. Those before it stay as they are.
    pub fn record(&mut self, revocation: Revocation)
        ensures
            final(self)@ == old(self)@.push(revocation@),
    {
        broadcast use crate::text::group_views;

        self.revocations.push(revocation);
    }

    /// The log with the latest revocation first.
    pub fn newest_first(&self) -> (r: Vec<&Revocation>)
        ensures
            text::views(r@) == latest_first(self@),
    {
        broadcast use crate::text::group_views;

        let ghost log = self@;
        let n = self.revocations.len();
        let mut ks: Vec<Vec<i128>> = Vec::new();
        let mut i: usize = 0;
        while i < n
            invariant
                i <= n,
                n == self.revocations@.len(),
                log == self@,
                ks@.len() == i,
                forall|k: int| 0 <= k < i ==> order::key(#[trigger] ks@[k]@) == age_keys(log)[k],
            decreases n - i,
        {
            let mut k: Vec<i128> = Vec::new();
            k.push(0i128 - self.revocations[i].revoked_at as i128);
            proof {
                assert(order::key(k@) =~= age_keys(log)[i as int]);
            }
            ks.push(k);
            i = i + 1;
        }
        proof {
            assert(order::keys(ks@) =~= age_keys(log));
        }
        let places = order_of(&ks);
        let mut out: Vec<&Revocation> = Vec::new();
        let mut j: usize = 0;
        while j < places.len()
            invariant
                j <= places@.len(),
                n == self.revocations@.len(),
                log == self@,
                order::positions(places@) == order::stable_order(age_keys(log)),
                order::is_order(age_keys(log), order::positions(places@)),
                text::views(out@) == latest_first(log).take(j as int),
            decreases places@.len() - j,
        {
            proof {
                assert(order::positions(places@)[j as int] == places@[j as int]);
                assert(latest_first(log).take(j + 1) =~= latest_first(log).take(j as int).push(
                    self.revocations@[places@[j as int] as int]@,
                ));
            }
            out.push(&self.revocations[places[j]]);
            j = j + 1;
        }
        proof {
            assert(latest_first(log).take(j as int) =~= latest_first(log));
        }
        out
    }
}

/// The log is read from the latest revocation to the oldest, and shows every
/// revocation that was recorded and no other.
pub proof fn law_latest_first(log: Seq<RevocationView>)
    ensures
        latest_first(log).len() == log.len(),
        forall|r: RevocationView| #[trigger] latest_first(log).contains(r) <==> log.contains(r),
        forall|i: int, j: int|
            0 <= i < j < log.len() ==> (#[trigger] latest_first(log)[i]).revoked_at >= (
            #[trigger] latest_first(log)[j]).revoked_at,
{
    let keys = age_keys(log);
    let places = order::stable_order(keys);
    order::lemma_order_exists(keys);
    order::lemma_arranged(log, keys);
    assert forall|i: int, j: int| 0 <= i < j < log.len() implies (
    #[trigger] latest_first(log)[i]).revoked_at >= (#[trigger] latest_first(log)[j]).revoked_at by {
        assert(order::belongs_before(keys, places[i], places[j]));
        assert(keys[places[i]][0] == -(log[places[i]].revoked_at as int));
        assert(keys[places[j]][0] == -(log[places[j]].revoked_at as int));
    }
}

/// What was known when a permission was revoked stays known, whatever becomes
/// of its row and of its attribution: later revocations leave the log's
/// entries as they are.
pub proof fn law_revocations_stay(
    log: Seq<RevocationView>,
    entry: EntryView,
    cache: Map<Text, RecordView>,
    at: i64,
    later: Seq<RevocationView>,
)
    ensures
        latest_first(log.push(snapshot(entry, cache, at)) + later).contains(
            snapshot(entry, cache, at),
        ),
{
    let whole = log.push(snapshot(entry, cache, at)) + later;
    law_latest_first(whole);
    assert(whole[log.len() as int] == snapshot(entry, cache, at));
    assert(whole.contains(snapshot(entry, cache, at)));
}

/// Where the log is kept.
pub open spec fn history_file(xdg_state_home: Option<Seq<u8>>, home: Option<Seq<u8>>) -> Seq<u8> {
    paths::path_join(
        paths::path_join(
            paths::base_dir(
                xdg_state_home,
                home,
                paths::bytes(".local"),
                Some(paths::bytes("state")),
            ),
            paths::bytes("wayward"),
        ),
        paths::bytes("revocations.json"),
    )
}

/// Where the log is kept, given `XDG_STATE_HOME` and `HOME`.
pub fn history_path(xdg_state_home: Option<Vec<u8>>, home: Option<Vec<u8>>) -> (r: Vec<u8>)
    ensures
        r@ == history_file(text::opt(xdg_state_home), text::opt(home)),
{
    let base = paths::base(xdg_state_home, home, ".local", Some("state"));
    paths::join(paths::join(base, "wayward"), "revocations.json")
}

/// What is kept of a row: its token, its table, its time and its details as they
/// stood, when it was deleted, and whom it belonged to: the process that its token
/// is attributed to, with its executable, or else the first of its applications.
pub proof fn law_what_is_kept_of_a_row(entry: EntryView, cache: Map<Text, RecordView>, at: i64)
    ensures
        ({
            let kept = snapshot(entry, cache, at);
            &&& kept.token == entry.id
            &&& kept.table == entry.table
            &&& kept.issued_at == entry.issued_at
            &&& kept.details == entry.details
            &&& kept.revoked_at == at
            &&& cache.contains_key(entry.id) ==> kept.app == Some(cache[entry.id].identity.label())
                && kept.exe == cache[entry.id].identity.exe
            &&& !cache.contains_key(entry.id) ==> kept.exe is None
            &&& !cache.contains_key(entry.id) && store::identified(entry.permissions).len() > 0
                ==> kept.app == Some(store::identified(entry.permissions)[0])
            &&& !cache.contains_key(entry.id) && store::identified(entry.permissions).len() == 0
                ==> kept.app is None
        }),
{
}

/// What is read from the latest to the oldest is the log, each entry as often as
/// it was recorded.
pub proof fn law_the_log_is_read_whole(log: Seq<RevocationView>)
    ensures
        latest_first(log).to_multiset() == log.to_multiset(),
{
    order::lemma_arranged_multiset(log, age_keys(log));
}

/// The log and the attributions are kept side by side.
pub proof fn law_where_the_log_is_kept(dir: Seq<u8>, home: Option<Seq<u8>>, own: Seq<u8>)
    requires
        dir.len() > 0,
    ensures
        history_file(Some(dir), home) == paths::path_join(
            paths::path_join(dir, paths::bytes("wayward")),
            paths::bytes("revocations.json"),
        ),
        history_file(None, Some(own)) == paths::path_join(
            paths::path_join(
                paths::path_join(
                    paths::path_join(own, paths::bytes(".local")),
                    paths::bytes("state"),
                ),
                paths::bytes("wayward"),
            ),
            paths::bytes("revocations.json"),
        ),
        history_file(Some(Seq::empty()), Some(own)) == history_file(None, Some(own)),
{
}

/// Revocations of the same time are shown in the order in which they were made.
pub proof fn law_same_time_keeps_the_order(log: Seq<RevocationView>, i: int, j: int)
    requires
        0 <= i < j < latest_first(log).len(),
        latest_first(log)[i].revoked_at == latest_first(log)[j].revoked_at,
    ensures
        exists|a: int, b: int|
            0 <= a < b < log.len() && #[trigger] log[a] == latest_first(log)[i] && #[trigger] log[b]
                == latest_first(log)[j],
{
    let keys = age_keys(log);
    let places = order::stable_order(keys);
    order::lemma_order_exists(keys);
    let a = places[i];
    let b = places[j];
    assert(order::belongs_before(keys, a, b));
    assert(keys[a] =~= keys[b]);
    order::lemma_key_irreflexive(keys[a]);
    assert(log[a] == latest_first(log)[i]);
    assert(log[b] == latest_first(log)[j]);
}

} // verus!
