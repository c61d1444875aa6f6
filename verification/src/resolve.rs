//! Recovering who holds the permissions that nobody saw granted.
use vstd::prelude::*;
use crate::attrib::{self, Cache, Identity, IdentityView, RecordView};
use crate::clock::now;
use crate::journal::{self, journal_arguments, Candidate, CandidateView, Confidence, Output, Resolution, ResolutionView};
use crate::listing;
use crate::split;
use crate::store::{Decision, Entry, EntryView};
use crate::text::{self, copy_opt, Text};

verus! {

/// The rows that grant something to nobody knows whom. A refusal needs no
/// holder, and what is attributed already is left alone.
pub open spec fn orphans(entries: Seq<EntryView>, cache: Map<Text, RecordView>) -> Seq<EntryView>
    decreases entries.len(),
{
    if entries.len() == 0 {
        Seq::empty()
    } else {
        let before = orphans(entries.drop_last(), cache);
        if listing::is_orphan(entries.last(), cache) {
            before.push(entries.last())
        } else {
            before
        }
    }
}

/// The rows that grant something to nobody knows whom.
pub fn pending<'a>(entries: &'a Vec<Entry>, cache: &Cache) -> (r: Vec<&'a Entry>)
    ensures
        text::views(r@) == orphans(text::views(entries@), cache@),
{
    broadcast use crate::text::group_views;

    let ghost all = text::views(entries@);
    let mut out: Vec<&'a Entry> = Vec::new();
    let mut i: usize = 0;
    proof {
        assert(all.take(0) =~= Seq::empty());
    }
    while i < entries.len()
        invariant
            i <= entries@.len(),
            all == text::views(entries@),
            text::views(out@) == orphans(all.take(i as int), cache@),
        decreases entries@.len() - i,
    {
        proof {
            assert(all.take(i + 1).drop_last() =~= all.take(i as int));
            assert(all.take(i + 1).last() == entries@[i as int]@);
        }
        let entry = &entries[i];
        if entry.decision() == Decision::Granted && entry.unattributed() && cache.get(
            entry.id.as_str(),
        ).is_none() {
            out.push(entry);
        }
        i = i + 1;
    }
    proof {
        assert(all.take(i as int) =~= all);
    }
    out
}

/// The arguments to ask `journalctl` with about a row: none where the time of
/// its grant is not known.
pub fn question(entry: &Entry, window: i64) -> (r: Option<Vec<String>>)
    ensures
        match (r, entry@.issued_at) {
            (Some(list), Some(issued)) => text::views(list@) == journal::arguments(issued, window),
            (None, None) => true,
            _ => false,
        },
{
    match entry.issued_at {
        Some(issued) => Some(journal_arguments(issued, window)),
        None => None,
    }
}

/// The candidates for a row, from what `journalctl` answered. Without an
/// answer there are none.
pub open spec fn candidates_for(entry: EntryView, window: i64, stdout: Option<Seq<u8>>) -> Seq<
    CandidateView,
> {
    match (entry.issued_at, stdout) {
        (Some(issued), Some(stdout)) => journal::ranking(
            entry.table,
            window,
            journal::line_sightings(split::lines_of(crate::format::lossy(stdout)), issued),
        ),
        _ => Seq::empty(),
    }
}

/// What was found out about a row, from what `journalctl` answered to
/// [`question`]. A failure of `journalctl` is passed on.
pub fn resolution(entry: &Entry, window: i64, answer: Option<&Output>) -> (r: Result<
    Resolution,
    String,
>)
    ensures
        ({
            let failed = entry@.issued_at is Some && answer is Some && !answer->0.success;
            match r {
                Ok(resolution) => !failed && resolution@ == (ResolutionView {
                    token: entry@.id,
                    table: entry@.table,
                    issued_at: entry@.issued_at,
                    candidates: candidates_for(
                        entry@,
                        window,
                        match answer {
                            Some(output) => Some(output.stdout@),
                            None => None,
                        },
                    ),
                }) && journal::is_ranked(resolution@.candidates),
                Err(message) => failed && message@ == "journalctl falló: "@ + text::trimmed(
                    crate::format::lossy(answer->0.stderr@),
                ),
            }
        }),
{
    broadcast use crate::text::group_views;

    let candidates = match (entry.issued_at, answer) {
        (Some(issued), Some(output)) => match journal::resolve(
            entry.table.as_str(),
            issued,
            window,
            output,
        ) {
            Ok(candidates) => candidates,
            Err(message) => {
                return Err(message);
            },
        },
        _ => {
            let none: Vec<Candidate> = Vec::new();
            none
        },
    };
    Ok(
        Resolution {
            token: entry.id.clone(),
            table: entry.table.clone(),
            issued_at: entry.issued_at,
            candidates,
        },
    )
}

// ---------------------------------------------------------------------------
// Writing the winners down
// ---------------------------------------------------------------------------
/// The process that a candidate stands for.
pub open spec fn identity_of(c: CandidateView) -> IdentityView {
    IdentityView { pid: c.pid, exe: c.exe, cmdline: None, comm: Some(c.label) }
}

/// The attributions with the best candidate of a permission added, where the
/// confidence in it reaches `min`.
pub open spec fn with_best(
    cache: Map<Text, RecordView>,
    r: ResolutionView,
    min: Confidence,
    now: i64,
) -> Map<Text, RecordView> {
    match r.best(min) {
        Some(c) => cache.insert(
            r.token,
            attrib::sighted(cache, r.token, identity_of(c), r.table, now),
        ),
        None => cache,
    }
}

/// The attributions with the best candidates added, each at its time.
pub open spec fn with_winners(
    cache: Map<Text, RecordView>,
    list: Seq<ResolutionView>,
    min: Confidence,
    times: Seq<i64>,
) -> Map<Text, RecordView>
    decreases list.len(),
{
    if list.len() == 0 {
        cache
    } else {
        let i = list.len() - 1;
        with_best(with_winners(cache, list.drop_last(), min, times), list[i], min, times[i])
    }
}

/// How many permissions have a candidate that reaches `min`.
pub open spec fn winners(list: Seq<ResolutionView>, min: Confidence) -> nat
    decreases list.len(),
{
    if list.len() == 0 {
        0
    } else {
        winners(list.drop_last(), min) + if list.last().best(min) is Some {
            1nat
        } else {
            0nat
        }
    }
}

/// Adds the best candidate of a permission to the attributions, where the
/// confidence in it reaches `min`, and says whether it did.
fn write_best(cache: &mut Cache, r: &Resolution, min: Confidence, now: i64) -> (written: bool)
    ensures
        final(cache)@ == with_best(old(cache)@, r@, min, now),
        written == r@.best(min) is Some,
{
    match r.best(min) {
        Some(c) => {
            let identity = Identity {
                pid: c.pid,
                exe: copy_opt(&c.exe),
                cmdline: None,
                comm: Some(c.label.clone()),
            };
            cache.observe(r.token.as_str(), identity, r.table.as_str(), now);
            true
        },
        None => false,
    }
}

/// Adds the best candidates to the attributions, where the confidence in them
/// reaches `min`, and says how many they are.
pub fn write_down_at(cache: &mut Cache, results: &Vec<Resolution>, min: Confidence, times: &Vec<i64>) -> (written:
    usize)
    requires
        times@.len() == results@.len(),
    ensures
        final(cache)@ == with_winners(old(cache)@, text::views(results@), min, times@),
        written == winners(text::views(results@), min),
{
    let ghost all = text::views(results@);
    let ghost before = cache@;
    let mut written: usize = 0;
    let mut i: usize = 0;
    proof {
        assert(all.take(0) =~= Seq::empty());
    }
    while i < results.len()
        invariant
            i <= results@.len(),
            times@.len() == results@.len(),
            all == text::views(results@),
            cache@ == with_winners(before, all.take(i as int), min, times@),
            written == winners(all.take(i as int), min),
            written <= i,
        decreases results@.len() - i,
    {
        proof {
            assert(all.take(i + 1).drop_last() =~= all.take(i as int));
            assert(all.take(i + 1)[i as int] == results@[i as int]@);
        }
        if write_best(cache, &results[i], min, times[i]) {
            written = written + 1;
        }
        i = i + 1;
    }
    proof {
        assert(all.take(i as int) =~= all);
    }
    written
}

/// Adds the best candidates to the attributions at the current time.
pub fn write_down(cache: &mut Cache, results: &Vec<Resolution>, min: Confidence) -> (written: usize)
    ensures
        exists|times: Seq<i64>|
            final(cache)@ == #[trigger] with_winners(
                old(cache)@,
                text::views(results@),
                min,
                times,
            ) && times.len() == results@.len(),
        written == winners(text::views(results@), min),
{
    let mut times: Vec<i64> = Vec::new();
    let mut i: usize = 0;
    while i < results.len()
        invariant
            i <= results@.len(),
            times@.len() == i,
        decreases results@.len() - i,
    {
        times.push(now());
        i = i + 1;
    }
    write_down_at(cache, results, min, &times)
}

/// Nothing is written down for a token unless a candidate for it reaches the
/// confidence that was asked for.
pub proof fn law_only_the_confident_are_written(
    cache: Map<Text, RecordView>,
    list: Seq<ResolutionView>,
    min: Confidence,
    times: Seq<i64>,
    token: Text,
)
    requires
        forall|i: int|
            0 <= i < list.len() && (#[trigger] list[i]).token == token ==> list[i].best(min) is None,
    ensures
        with_winners(cache, list, min, times).contains_key(token) == cache.contains_key(token),
        cache.contains_key(token) ==> with_winners(cache, list, min, times)[token] == cache[token],
    decreases list.len(),
{
    if list.len() > 0 {
        let rest = list.drop_last();
        assert forall|i: int| 0 <= i < rest.len() && (#[trigger] rest[i]).token
            == token implies rest[i].best(min) is None by {
            assert(rest[i] == list[i]);
        }
        law_only_the_confident_are_written(cache, rest, min, times, token);
        assert(list[list.len() - 1].token == token ==> list[list.len() - 1].best(min) is None);
    }
}

/// What is attributed already is left alone: where every permission that was
/// looked into had no attribution, all earlier attributions stay as they are.
pub proof fn law_attributions_are_left_alone(
    cache: Map<Text, RecordView>,
    list: Seq<ResolutionView>,
    min: Confidence,
    times: Seq<i64>,
)
    requires
        forall|i: int| 0 <= i < list.len() ==> !cache.contains_key((#[trigger] list[i]).token),
    ensures
        cache.submap_of(with_winners(cache, list, min, times)),
    decreases list.len(),
{
    if list.len() > 0 {
        let rest = list.drop_last();
        assert forall|i: int| 0 <= i < rest.len() implies !cache.contains_key(
            (#[trigger] rest[i]).token,
        ) by {
            assert(rest[i] == list[i]);
        }
        law_attributions_are_left_alone(cache, rest, min, times);
        assert(!cache.contains_key(list[list.len() - 1].token));
    }
}

/// Only rows that are granted, that no application is known for and that are
/// not attributed are looked into.
pub proof fn law_only_orphans_are_looked_into(
    entries: Seq<EntryView>,
    cache: Map<Text, RecordView>,
    e: EntryView,
)
    ensures
        orphans(entries, cache).contains(e) <==> entries.contains(e) && listing::is_orphan(e, cache),
    decreases entries.len(),
{
    if entries.len() > 0 {
        let rest = entries.drop_last();
        let before = orphans(rest, cache);
        let all = orphans(entries, cache);
        law_only_orphans_are_looked_into(rest, cache, e);
        if all.contains(e) {
            let k = choose|k: int| 0 <= k < all.len() && all[k] == e;
            if k < before.len() {
                assert(before[k] == e);
                let j = choose|j: int| 0 <= j < rest.len() && rest[j] == e;
                assert(entries[j] == e);
            } else {
                assert(entries[entries.len() - 1] == e);
            }
        }
        if entries.contains(e) && listing::is_orphan(e, cache) {
            let j = choose|j: int| 0 <= j < entries.len() && entries[j] == e;
            if j < rest.len() {
                assert(rest[j] == e);
                let k = choose|k: int| 0 <= k < before.len() && before[k] == e;
                assert(all[k] == e);
            } else {
                assert(all[all.len() - 1] == e);
            }
        }
    }
}

/// The best candidate for a permission is written down, where the confidence in it
/// is enough: with its command name, its executable and its number, for the
/// permission's table, at its time. Where the same token turns up again, the
/// later one counts.
pub proof fn law_the_best_is_written_down(
    cache: Map<Text, RecordView>,
    list: Seq<ResolutionView>,
    min: Confidence,
    times: Seq<i64>,
    i: int,
)
    requires
        0 <= i < list.len(),
        times.len() == list.len(),
        list[i].candidates.len() > 0,
        min == Confidence::Low || list[i].candidates[0].confidence == Confidence::High || (min
            == Confidence::Medium && list[i].candidates[0].confidence == Confidence::Medium),
        forall|k: int| i < k < list.len() ==> (#[trigger] list[k]).token != list[i].token,
    ensures
        ({
            let after = with_winners(cache, list, min, times);
            let best = list[i].candidates[0];
            let token = list[i].token;
            &&& after.contains_key(token)
            &&& after[token].identity == IdentityView {
                pid: best.pid,
                exe: best.exe,
                cmdline: None,
                comm: Some(best.label),
            }
            &&& after[token].last_seen == times[i]
            &&& !cache.contains_key(token) && (forall|k: int|
                0 <= k < i ==> (#[trigger] list[k]).token != token) ==> after[token].first_seen
                == times[i] && after[token].table == list[i].table
        }),
    decreases list.len(),
{
    let rest = list.drop_last();
    let n = list.len() - 1;
    let token = list[i].token;
    if i < n {
        assert forall|k: int| i < k < rest.len() implies (#[trigger] rest[k]).token != rest[i].token by {
            assert(rest[k] == list[k]);
        }
        lemma_winners_times(cache, rest, min, times, times.drop_last());
        law_the_best_is_written_down(cache, rest, min, times.drop_last(), i);
        assert(list[n].token != token);
        if forall|k: int| 0 <= k < i ==> (#[trigger] list[k]).token != token {
            assert forall|k: int| 0 <= k < i implies (#[trigger] rest[k]).token != token by {
                assert(rest[k] == list[k]);
            }
        }
    } else {
        if !cache.contains_key(token) && (forall|k: int|
            0 <= k < i ==> (#[trigger] list[k]).token != token) {
            assert forall|k: int| 0 <= k < rest.len() && (#[trigger] rest[k]).token
                == token implies rest[k].best(min) is None by {
                assert(rest[k] == list[k]);
            }
            law_only_the_confident_are_written(cache, rest, min, times, token);
        }
    }
}

/// Only the times of the permissions count.
proof fn lemma_winners_times(
    cache: Map<Text, RecordView>,
    list: Seq<ResolutionView>,
    min: Confidence,
    a: Seq<i64>,
    b: Seq<i64>,
)
    requires
        list.len() <= a.len(),
        list.len() <= b.len(),
        forall|k: int| 0 <= k < list.len() ==> a[k] == b[k],
    ensures
        with_winners(cache, list, min, a) == with_winners(cache, list, min, b),
    decreases list.len(),
{
    if list.len() > 0 {
        lemma_winners_times(cache, list.drop_last(), min, a, b);
    }
}

/// One permission more counts as written exactly where its first candidate
/// reaches the confidence that was asked for.
pub proof fn law_what_counts_as_written(list: Seq<ResolutionView>, more: ResolutionView, min: Confidence)
    ensures
        winners(Seq::empty(), min) == 0,
        winners(list.push(more), min) == winners(list, min) + if more.candidates.len() > 0 && (min
            == Confidence::Low || more.candidates[0].confidence == Confidence::High || (min
            == Confidence::Medium && more.candidates[0].confidence == Confidence::Medium)) {
            1nat
        } else {
            0nat
        },
{
    assert(list.push(more).drop_last() =~= list);
}

/// What is looked into, with the conditions spelled out: a row with a yes, without
/// any application that is named, and whose token is not attributed.
pub proof fn law_what_is_looked_into(
    entries: Seq<EntryView>,
    cache: Map<Text, RecordView>,
    e: EntryView,
)
    ensures
        orphans(entries, cache).contains(e) <==> entries.contains(e) && crate::store::decided(
            e.permissions,
        ) == Decision::Granted && (forall|app: Text| #[trigger]
            e.permissions.contains_key(app) ==> app == Seq::<char>::empty()) && !cache.contains_key(
            e.id,
        ),
{
    law_only_orphans_are_looked_into(entries, cache, e);
    assert forall|app: Text| #[trigger] e.permissions.contains_key(app) implies (app.len() == 0 <==> app
        == Seq::<char>::empty()) by {
        if app.len() == 0 {
            assert(app =~= Seq::<char>::empty());
        }
    }
}

/// Without an answer, or without the time of the grant, there are no candidates;
/// with both, they are those that the lines of the answer give.
pub proof fn law_no_answer_no_candidates(entry: EntryView, window: i64, stdout: Option<Seq<u8>>)
    ensures
        entry.issued_at is None || stdout is None ==> candidates_for(entry, window, stdout).len() == 0,
        entry.issued_at is Some && stdout is Some ==> candidates_for(entry, window, stdout)
            == journal::ranking(
            entry.table,
            window,
            journal::line_sightings(
                split::lines_of(crate::format::lossy(stdout->0)),
                entry.issued_at->0,
            ),
        ),
{
}

} // verus!
