//! The report on the permissions that are granted on this machine.
use vstd::prelude::*;
use crate::attrib::{Cache, RecordView};
use crate::clock::now;
use crate::format::{pad_right, repeat};
use crate::json::{self, Items, Json, JsonView};
use crate::order::{self, extend_key, order_of};
use crate::render::{self, format_times, plural};
use crate::report::{Lines, Report, ReportView};
use crate::risk::{self, lookup, Risk};
use crate::split::{self, join};
use crate::store::{self, Decision, Entry, EntryView};
use crate::style::{self, blue, bold, dimmed, green, red, yellow};
use crate::text::{self, decimal, same, Text};

verus! {

// ---------------------------------------------------------------------------
// Counting
// ---------------------------------------------------------------------------
/// A row that grants something.
pub open spec fn is_granted(e: EntryView) -> bool {
    store::decided(e.permissions) == Decision::Granted
}

/// A row that keeps a refusal.
pub open spec fn is_denied(e: EntryView) -> bool {
    store::decided(e.permissions) == Decision::Denied
}

/// A row that grants something of high risk. A refusal exposes nothing.
pub open spec fn is_high_risk(e: EntryView) -> bool {
    is_granted(e) && risk::info(e.table).risk == Risk::High
}

/// A row that grants something to nobody knows whom.
pub open spec fn is_orphan(e: EntryView, cache: Map<Text, RecordView>) -> bool {
    is_granted(e) && store::anonymous(e.permissions) && !cache.contains_key(e.id)
}

/// How many rows `test` holds of.
pub open spec fn count(entries: Seq<EntryView>, test: spec_fn(EntryView) -> bool) -> nat
    decreases entries.len(),
{
    if entries.len() == 0 {
        0
    } else {
        count(entries.drop_last(), test) + if test(entries.last()) {
            1nat
        } else {
            0nat
        }
    }
}

/// The tables of some rows, in the order in which they first occur.
pub open spec fn tables_in(entries: Seq<EntryView>) -> Seq<Text>
    decreases entries.len(),
{
    if entries.len() == 0 {
        Seq::empty()
    } else {
        let before = tables_in(entries.drop_last());
        if before.contains(entries.last().table) {
            before
        } else {
            before.push(entries.last().table)
        }
    }
}

/// What a list of rows comes to.
pub struct Tally {
    pub total: usize,
    pub tables: usize,
    pub granted: usize,
    pub denied: usize,
    pub high: usize,
    pub unattributed: usize,
}

/// What a list of rows comes to, as the contracts see it.
pub struct TallyView {
    pub total: nat,
    pub tables: nat,
    pub granted: nat,
    pub denied: nat,
    pub high: nat,
    pub unattributed: nat,
}

impl View for Tally {
    type V = TallyView;

    open spec fn view(&self) -> TallyView {
        TallyView {
            total: self.total as nat,
            tables: self.tables as nat,
            granted: self.granted as nat,
            denied: self.denied as nat,
            high: self.high as nat,
            unattributed: self.unattributed as nat,
        }
    }
}

/// What a list of rows comes to.
pub open spec fn tally_of(entries: Seq<EntryView>, cache: Map<Text, RecordView>) -> TallyView {
    TallyView {
        total: entries.len(),
        tables: tables_in(entries).len(),
        granted: count(entries, |e: EntryView| is_granted(e)),
        denied: count(entries, |e: EntryView| is_denied(e)),
        high: count(entries, |e: EntryView| is_high_risk(e)),
        unattributed: count(entries, |e: EntryView| is_orphan(e, cache)),
    }
}

/// A refusal is not a risk: one row more that keeps a refusal changes neither
/// what is granted, nor what is at high risk, nor what is unattributed.
pub proof fn law_a_refusal_is_not_a_risk(
    entries: Seq<EntryView>,
    cache: Map<Text, RecordView>,
    refusal: EntryView,
)
    requires
        is_denied(refusal),
    ensures
        ({
            let before = tally_of(entries, cache);
            let after = tally_of(entries.push(refusal), cache);
            &&& after.granted == before.granted
            &&& after.high == before.high
            &&& after.unattributed == before.unattributed
            &&& after.denied == before.denied + 1
            &&& after.total == before.total + 1
        }),
{
    assert(entries.push(refusal).drop_last() =~= entries);
}

/// The counts hang together: what is at high risk or unattributed is granted,
/// and nothing is both granted and refused.
pub proof fn law_counts_hang_together(entries: Seq<EntryView>, cache: Map<Text, RecordView>)
    ensures
        tally_of(entries, cache).high <= tally_of(entries, cache).granted,
        tally_of(entries, cache).unattributed <= tally_of(entries, cache).granted,
        tally_of(entries, cache).granted + tally_of(entries, cache).denied <= entries.len(),
        tally_of(entries, cache).tables <= entries.len(),
    decreases entries.len(),
{
    if entries.len() > 0 {
        law_counts_hang_together(entries.drop_last(), cache);
    }
}

/// Whether a list holds a text.
fn listed(list: &Vec<String>, wanted: &str) -> (r: bool)
    ensures
        r == text::views(list@).contains(wanted@),
{
    let ghost all = text::views(list@);
    let mut i: usize = 0;
    while i < list.len()
        invariant
            i <= list@.len(),
            all == text::views(list@),
            forall|k: int| 0 <= k < i ==> #[trigger] all[k] != wanted@,
        decreases list@.len() - i,
    {
        if same(list[i].as_str(), wanted) {
            proof {
                assert(all[i as int] == wanted@);
            }
            return true;
        }
        i = i + 1;
    }
    false
}

/// The tables of some rows, in the order in which they first occur.
fn tables_of(entries: &Vec<Entry>) -> (r: Vec<String>)
    ensures
        text::views(r@) == tables_in(text::views(entries@)),
        r@.len() <= entries@.len(),
{
    broadcast use crate::text::group_views;

    let ghost all = text::views(entries@);
    let mut out: Vec<String> = Vec::new();
    let mut i: usize = 0;
    proof {
        assert(all.take(0) =~= Seq::empty());
    }
    while i < entries.len()
        invariant
            i <= entries@.len(),
            all == text::views(entries@),
            text::views(out@) == tables_in(all.take(i as int)),
            out@.len() <= i,
        decreases entries@.len() - i,
    {
        proof {
            assert(all.take(i + 1).drop_last() =~= all.take(i as int));
            assert(all.take(i + 1).last() == entries@[i as int]@);
        }
        if !listed(&out, entries[i].table.as_str()) {
            out.push(entries[i].table.clone());
        }
        i = i + 1;
    }
    proof {
        assert(all.take(i as int) =~= all);
    }
    out
}

/// What a list of rows comes to.
pub fn tally(entries: &Vec<Entry>, cache: &Cache) -> (r: Tally)
    ensures
        r@ == tally_of(text::views(entries@), cache@),
{
    let ghost all = text::views(entries@);
    let ghost granted_test = |e: EntryView| is_granted(e);
    let ghost denied_test = |e: EntryView| is_denied(e);
    let ghost high_test = |e: EntryView| is_high_risk(e);
    let ghost orphan_test = |e: EntryView| is_orphan(e, cache@);
    let tables = tables_of(entries);
    let mut granted: usize = 0;
    let mut denied: usize = 0;
    let mut high: usize = 0;
    let mut unattributed: usize = 0;
    let mut i: usize = 0;
    proof {
        assert(all.take(0) =~= Seq::empty());
    }
    while i < entries.len()
        invariant
            i <= entries@.len(),
            all == text::views(entries@),
            granted_test == (|e: EntryView| is_granted(e)),
            denied_test == (|e: EntryView| is_denied(e)),
            high_test == (|e: EntryView| is_high_risk(e)),
            orphan_test == (|e: EntryView| is_orphan(e, cache@)),
            granted == count(all.take(i as int), granted_test),
            denied == count(all.take(i as int), denied_test),
            high == count(all.take(i as int), high_test),
            unattributed == count(all.take(i as int), orphan_test),
            granted <= i,
            denied <= i,
            high <= i,
            unattributed <= i,
        decreases entries@.len() - i,
    {
        proof {
            assert(all.take(i + 1).drop_last() =~= all.take(i as int));
            assert(all.take(i + 1).last() == entries@[i as int]@);
        }
        let entry = &entries[i];
        match entry.decision() {
            Decision::Granted => {
                granted = granted + 1;
                if lookup(entry.table.as_str()).risk == Risk::High {
                    high = high + 1;
                }
                if entry.unattributed() && cache.get(entry.id.as_str()).is_none() {
                    unattributed = unattributed + 1;
                }
            },
            Decision::Denied => {
                denied = denied + 1;
            },
            Decision::Unknown => {},
        }
        i = i + 1;
    }
    proof {
        assert(all.take(i as int) =~= all);
    }
    Tally { total: entries.len(), tables: tables.len(), granted, denied, high, unattributed }
}

// ---------------------------------------------------------------------------
// The summary
// ---------------------------------------------------------------------------
/// The line with the counts.
pub open spec fn count_line(t: TallyView) -> Text {
    "    "@ + text::dec(t.total) + " "@ + render::noun(t.total, "permission"@, "permissions"@)
        + " across "@ + text::dec(t.tables) + " "@ + render::noun(t.tables, "table"@, "tables"@)
        + " · "@ + text::dec(t.granted) + " granted, "@ + text::dec(t.high) + " high risk"@ + (
    if t.denied > 0 {
        " · "@ + text::dec(t.denied) + " denied"@
    } else {
        ""@
    }) + " · "@ + text::dec(t.unattributed) + " unattributed"@
}

/// The lines with those of the summary added.
pub open spec fn with_summary(l: Seq<Text>, t: TallyView) -> Seq<Text> {
    let l = l.push("  "@ + style::in_bold("Summary"@)).push(count_line(t));
    let l = if t.unattributed > 0 {
        l.push(""@).push(
            "  "@ + style::in_bold(style::in_yellow("!"@))
                + " Unattributed permissions belong to native applications. The portal"@,
        ).push("    derives the application identifier from the sandbox, so outside Flatpak"@).push(
            "    or Snap nothing records who asked for the permission: only a random"@,
        ).push("    token that lets it resume access without ever asking again."@).push(""@).push(
            "    Run "@ + style::in_bold("wayward watch"@)
                + " and use the application again to start building the"@,
        ).push("    map the system never keeps."@)
    } else {
        l
    };
    l.push(""@)
}

/// The line with the counts.
fn counts(t: &Tally) -> (r: String)
    ensures
        r@ == count_line(t@),
{
    let refusals = if t.denied > 0 {
        " · ".to_owned().concat(decimal(t.denied as u64).as_str()).concat(" denied")
    } else {
        "".to_owned()
    };
    "    ".to_owned().concat(decimal(t.total as u64).as_str()).concat(" ").concat(
        plural(t.total, "permission", "permissions").as_str(),
    ).concat(" across ").concat(decimal(t.tables as u64).as_str()).concat(" ").concat(
        plural(t.tables, "table", "tables").as_str(),
    ).concat(" · ").concat(decimal(t.granted as u64).as_str()).concat(" granted, ").concat(
        decimal(t.high as u64).as_str(),
    ).concat(" high risk").concat(refusals.as_str()).concat(" · ").concat(
        decimal(t.unattributed as u64).as_str(),
    ).concat(" unattributed")
}

/// Adds the lines of the summary.
pub fn summarize(out: &mut Lines, entries: &Vec<Entry>, cache: &Cache)
    ensures
        final(out)@ == with_summary(old(out)@, tally_of(text::views(entries@), cache@)),
{
    let t = tally(entries, cache);
    out.line("  ".to_owned().concat(bold("Summary").as_str()));
    out.line(counts(&t));
    if t.unattributed > 0 {
        out.line("".to_owned());
        out.line(
            "  ".to_owned().concat(bold(yellow("!").as_str()).as_str()).concat(
                " Unattributed permissions belong to native applications. The portal",
            ),
        );
        out.line(
            "    derives the application identifier from the sandbox, so outside Flatpak".to_owned(),
        );
        out.line(
            "    or Snap nothing records who asked for the permission: only a random".to_owned(),
        );
        out.line("    token that lets it resume access without ever asking again.".to_owned());
        out.line("".to_owned());
        out.line(
            "    Run ".to_owned().concat(bold("wayward watch").as_str()).concat(
                " and use the application again to start building the",
            ),
        );
        out.line("    map the system never keeps.".to_owned());
    }
    out.line("".to_owned());
}

// ---------------------------------------------------------------------------
// Rows by table
// ---------------------------------------------------------------------------
/// A risk in its colour.
pub open spec fn painted(risk: Risk) -> Text {
    let label = risk::risk_label(risk) + " risk"@;
    match risk {
        Risk::High => style::in_bold(style::in_red(label)),
        Risk::Medium => style::in_yellow(label),
        Risk::Low => style::in_blue(label),
        Risk::Info => style::in_dim(label),
    }
}

/// A risk in its colour.
pub fn paint(risk: Risk) -> (r: String)
    ensures
        r@ == painted(risk),
{
    let label = risk.label().to_owned().concat(" risk");
    match risk {
        Risk::High => bold(red(label.as_str()).as_str()),
        Risk::Medium => yellow(label.as_str()),
        Risk::Low => blue(label.as_str()),
        Risk::Info => dimmed(label.as_str()),
    }
}

/// The places of the rows of a table.
pub open spec fn members(entries: Seq<EntryView>, table: Text) -> Seq<int>
    decreases entries.len(),
{
    if entries.len() == 0 {
        Seq::empty()
    } else {
        let before = members(entries.drop_last(), table);
        if entries.last().table == table {
            before.push(entries.len() - 1)
        } else {
            before
        }
    }
}

/// When a row was granted; the beginning of time where that is not known.
pub open spec fn issued_or_zero(e: EntryView) -> int {
    match e.issued_at {
        Some(ts) => ts as int,
        None => 0,
    }
}

/// What the rows at some places are ordered by: the later grants come first.
pub open spec fn recency_keys(entries: Seq<EntryView>, places: Seq<int>) -> Seq<Seq<int>> {
    Seq::new(places.len(), |k: int| seq![-issued_or_zero(entries[places[k]])])
}

/// The places of the rows of a table, with the latest grant first.
pub open spec fn group(entries: Seq<EntryView>, table: Text) -> Seq<int> {
    let places = members(entries, table);
    order::arranged(places, order::stable_order(recency_keys(entries, places)))
}

/// What tables are ordered by: the risk, then the name.
pub open spec fn table_key(table: Text) -> Seq<int> {
    seq![-risk::risk_level(risk::info(table).risk)] + order::text_key(table)
}

/// What the tables of a list are ordered by.
pub open spec fn table_keys(names: Seq<Text>) -> Seq<Seq<int>> {
    Seq::new(names.len(), |i: int| table_key(names[i]))
}

/// The tables of some rows, with the highest risk first.
pub open spec fn tables_by_risk(entries: Seq<EntryView>) -> Seq<Text> {
    let names = tables_in(entries);
    order::arranged(names, order::stable_order(table_keys(names)))
}

/// What is said of a row: a refusal without alarm, a strange value as such, and
/// a grant with whoever holds it.
pub open spec fn status(e: EntryView, cache: Map<Text, RecordView>) -> Text {
    match store::decided(e.permissions) {
        Decision::Denied => style::in_green("denied"@),
        Decision::Unknown => style::in_dim("non-standard value"@),
        Decision::Granted => if cache.contains_key(e.id) {
            style::in_green(cache[e.id].identity.label())
        } else if store::anonymous(e.permissions) {
            style::in_yellow("unattributed"@)
        } else {
            style::in_green(split::joined(store::identified(e.permissions), ", "@))
        },
    }
}

/// A line below a row: a label in a column, and a value.
pub open spec fn row_field(label: Text, value: Text) -> Text {
    "      "@ + crate::format::padded_right(label, 11) + " "@ + value
}

/// The lines with those of a row's details added.
pub open spec fn with_details(l: Seq<Text>, details: Seq<(Text, Text)>) -> Seq<Text>
    decreases details.len(),
{
    if details.len() == 0 {
        l
    } else {
        with_details(l, details.drop_last()).push(
            row_field(details.last().0, details.last().1),
        )
    }
}

/// The executable that a token is attributed to.
pub open spec fn executable(cache: Map<Text, RecordView>, token: Text) -> Option<Text> {
    if cache.contains_key(token) {
        cache[token].identity.exe
    } else {
        None
    }
}

/// The lines with those of a row added, given the time of its grant.
pub open spec fn with_row(
    l: Seq<Text>,
    e: EntryView,
    cache: Map<Text, RecordView>,
    date: Text,
) -> Seq<Text> {
    let l = l.push(
        "    "@ + style::in_dim("•"@) + " "@ + style::in_bold(e.id) + "   "@ + status(e, cache),
    );
    let l = match executable(cache, e.id) {
        Some(exe) => l.push(row_field("executable"@, style::in_dim(exe))),
        None => l,
    };
    let l = if e.issued_at is Some {
        l.push(row_field("granted"@, date))
    } else {
        l
    };
    with_details(l, e.details).push(""@)
}

/// The lines with those of the rows at some places added.
pub open spec fn with_rows(
    l: Seq<Text>,
    entries: Seq<EntryView>,
    cache: Map<Text, RecordView>,
    dates: Seq<Text>,
    places: Seq<int>,
) -> Seq<Text>
    decreases places.len(),
{
    if places.len() == 0 {
        l
    } else {
        with_row(
            with_rows(l, entries, cache, dates, places.drop_last()),
            entries[places.last()],
            cache,
            dates[places.last()],
        )
    }
}

/// Something in a table is granted.
pub open spec fn any_granted(entries: Seq<EntryView>, table: Text) -> bool {
    exists|i: int|
        0 <= i < entries.len() && (#[trigger] entries[i]).table == table && is_granted(entries[i])
}

/// The badge of a table. Where nothing in it is granted, its risk is but a
/// theory, and is not painted.
pub open spec fn badge(entries: Seq<EntryView>, table: Text) -> Text {
    let risk = risk::info(table).risk;
    if any_granted(entries, table) {
        painted(risk)
    } else {
        style::in_dim(risk::risk_label(risk) + " risk · nothing granted"@)
    }
}

/// The lines with those of a table added.
pub open spec fn with_table(
    l: Seq<Text>,
    entries: Seq<EntryView>,
    cache: Map<Text, RecordView>,
    dates: Seq<Text>,
    table: Text,
) -> Seq<Text> {
    let info = risk::info(table);
    let l = l.push(
        "  "@ + style::in_bold(info.display + "  ("@ + table + ")"@) + "   "@ + badge(
            entries,
            table,
        ),
    ).push("  "@ + style::in_dim(info.grants)).push(
        "  "@ + style::in_dim(crate::format::repeated('─', 66)),
    );
    with_rows(l, entries, cache, dates, group(entries, table))
}

/// The lines with those of some tables added.
pub open spec fn with_tables(
    l: Seq<Text>,
    entries: Seq<EntryView>,
    cache: Map<Text, RecordView>,
    dates: Seq<Text>,
    tables: Seq<Text>,
) -> Seq<Text>
    decreases tables.len(),
{
    if tables.len() == 0 {
        l
    } else {
        with_table(
            with_tables(l, entries, cache, dates, tables.drop_last()),
            entries,
            cache,
            dates,
            tables.last(),
        )
    }
}

/// The lines of the report on permissions.
pub open spec fn listing_lines(
    entries: Seq<EntryView>,
    cache: Map<Text, RecordView>,
    dates: Seq<Text>,
) -> Seq<Text> {
    if entries.len() == 0 {
        seq![
            "\n  "@ + style::in_bold("Nothing to audit."@)
                + "\n\n  No desktop-portal permission is granted on this machine.\n"@,
        ]
    } else {
        with_summary(
            with_tables(seq![""@], entries, cache, dates, tables_by_risk(entries)),
            tally_of(entries, cache),
        )
    }
}

/// The places of a table's rows are places of rows of that table.
proof fn lemma_members(entries: Seq<EntryView>, table: Text)
    ensures
        forall|k: int|
            0 <= k < members(entries, table).len() ==> 0 <= #[trigger] members(entries, table)[k]
                < entries.len() && entries[members(entries, table)[k]].table == table,
        forall|i: int|
            0 <= i < entries.len() && (#[trigger] entries[i]).table == table ==> members(
                entries,
                table,
            ).contains(i),
    decreases entries.len(),
{
    if entries.len() > 0 {
        let rest = entries.drop_last();
        let before = members(rest, table);
        let all = members(entries, table);
        lemma_members(rest, table);
        assert forall|k: int| 0 <= k < all.len() implies 0 <= #[trigger] all[k] < entries.len()
            && entries[all[k]].table == table by {
            if k < before.len() {
                assert(before[k] == all[k]);
            }
        }
        assert forall|i: int| 0 <= i < entries.len() && (#[trigger] entries[i]).table
            == table implies all.contains(i) by {
            if i < rest.len() {
                assert(rest[i].table == table);
                let k = choose|k: int| 0 <= k < before.len() && before[k] == i;
                assert(all[k] == i);
            } else {
                assert(all[all.len() - 1] == i);
            }
        }
    }
}

/// Every row stands in the report, below its table: the places of a table's
/// rows are those of all its rows and of no others, and every table is there.
pub proof fn law_every_row_is_listed(entries: Seq<EntryView>, i: int)
    requires
        0 <= i < entries.len(),
    ensures
        tables_by_risk(entries).contains(entries[i].table),
        forall|k: int|
            #[trigger] group(entries, entries[i].table).contains(k) <==> 0 <= k < entries.len()
                && entries[k].table == entries[i].table,
{
    let table = entries[i].table;
    let names = tables_in(entries);
    let places = members(entries, table);
    lemma_members(entries, table);
    order::lemma_arranged(names, table_keys(names));
    order::lemma_arranged(places, recency_keys(entries, places));
    lemma_table_occurs(entries, i);
    assert forall|k: int| #[trigger] group(entries, table).contains(k) <==> 0 <= k < entries.len()
        && entries[k].table == table by {
        if places.contains(k) {
            let p = choose|p: int| 0 <= p < places.len() && places[p] == k;
            assert(entries[places[p]].table == table);
        }
    }
}

proof fn lemma_table_occurs(entries: Seq<EntryView>, i: int)
    requires
        0 <= i < entries.len(),
    ensures
        tables_in(entries).contains(entries[i].table),
    decreases entries.len(),
{
    let rest = entries.drop_last();
    let before = tables_in(rest);
    let all = tables_in(entries);
    if i < rest.len() {
        lemma_table_occurs(rest, i);
        let k = choose|k: int| 0 <= k < before.len() && before[k] == rest[i].table;
        assert(all[k] == entries[i].table);
    } else if !before.contains(entries[i].table) {
        assert(all[all.len() - 1] == entries[i].table);
    }
}

/// Tables of higher risk come before those of lower risk.
pub proof fn law_higher_risk_comes_first(entries: Seq<EntryView>, i: int, j: int)
    requires
        0 <= i < j < tables_by_risk(entries).len(),
    ensures
        risk::risk_level(risk::info(tables_by_risk(entries)[i]).risk) >= risk::risk_level(
            risk::info(tables_by_risk(entries)[j]).risk,
        ),
{
    let names = tables_in(entries);
    let keys = table_keys(names);
    let places = order::stable_order(keys);
    order::lemma_order_exists(keys);
    assert(order::belongs_before(keys, places[i], places[j]));
    assert(keys[places[i]][0] == -risk::risk_level(risk::info(names[places[i]]).risk));
    assert(keys[places[j]][0] == -risk::risk_level(risk::info(names[places[j]]).risk));
}

/// A line below a row.
fn row_line(label: &str, value: &str) -> (r: String)
    ensures
        r@ == row_field(label@, value@),
{
    "      ".to_owned().concat(pad_right(label, 11).as_str()).concat(" ").concat(value)
}

/// What is said of a row.
fn status_of(e: &Entry, cache: &Cache) -> (r: String)
    ensures
        r@ == status(e@, cache@),
{
    match e.decision() {
        Decision::Denied => green("denied"),
        Decision::Unknown => dimmed("non-standard value"),
        Decision::Granted => match cache.get(e.id.as_str()) {
            Some(record) => green(record.identity.label().as_str()),
            None => if e.unattributed() {
                yellow("unattributed")
            } else {
                green(join(&e.apps(), ", ").as_str())
            },
        },
    }
}

/// Adds the lines of a row.
fn add_row(out: &mut Lines, e: &Entry, cache: &Cache, date: &str)
    ensures
        final(out)@ == with_row(old(out)@, e@, cache@, date@),
{
    out.line(
        "    ".to_owned().concat(dimmed("•").as_str()).concat(" ").concat(
            bold(e.id.as_str()).as_str(),
        ).concat("   ").concat(status_of(e, cache).as_str()),
    );
    if let Some(record) = cache.get(e.id.as_str()) {
        if let Some(exe) = &record.identity.exe {
            out.line(row_line("executable", dimmed(exe.as_str()).as_str()));
        }
    }
    if e.issued_at.is_some() {
        out.line(row_line("granted", date));
    }
    let ghost before = out@;
    let ghost all = e@.details;
    let mut i: usize = 0;
    proof {
        assert(all.take(0) =~= Seq::empty());
    }
    while i < e.details.len()
        invariant
            i <= e.details@.len(),
            all == e@.details,
            out@ == with_details(before, all.take(i as int)),
        decreases e.details@.len() - i,
    {
        proof {
            assert(all.take(i + 1).drop_last() =~= all.take(i as int));
            assert(all.take(i + 1).last() == e.details@[i as int]@);
        }
        out.line(row_line(e.details[i].0.as_str(), e.details[i].1.as_str()));
        i = i + 1;
    }
    proof {
        assert(all.take(i as int) =~= all);
    }
    out.line("".to_owned());
}

/// The places of the rows of a table, and whether one of them grants anything.
fn members_of(entries: &Vec<Entry>, table: &str) -> (r: (Vec<usize>, bool))
    ensures
        order::positions(r.0@) == members(text::views(entries@), table@),
        r.1 == any_granted(text::views(entries@), table@),
        forall|k: int| 0 <= k < r.0@.len() ==> #[trigger] r.0@[k] < entries@.len(),
{
    let ghost all = text::views(entries@);
    let mut places: Vec<usize> = Vec::new();
    let mut granted = false;
    let mut i: usize = 0;
    proof {
        assert(all.take(0) =~= Seq::empty());
        assert(order::positions(places@) =~= Seq::empty());
    }
    while i < entries.len()
        invariant
            i <= entries@.len(),
            all == text::views(entries@),
            order::positions(places@) == members(all.take(i as int), table@),
            granted == (exists|k: int|
                0 <= k < i && (#[trigger] all[k]).table == table@ && is_granted(all[k])),
            forall|k: int| 0 <= k < places@.len() ==> #[trigger] places@[k] < entries@.len(),
        decreases entries@.len() - i,
    {
        proof {
            assert(all.take(i + 1).drop_last() =~= all.take(i as int));
            assert(all.take(i + 1).last() == all[i as int]);
        }
        if same(entries[i].table.as_str(), table) {
            let ghost before = places@;
            places.push(i);
            proof {
                assert(order::positions(places@) =~= order::positions(before).push(i as int));
            }
            if entries[i].decision() == Decision::Granted {
                granted = true;
            }
        }
        i = i + 1;
    }
    proof {
        assert(all.take(i as int) =~= all);
    }
    (places, granted)
}

/// Adds the lines of a table.
fn add_table(out: &mut Lines, entries: &Vec<Entry>, cache: &Cache, dates: &Vec<String>, table: &str)
    requires
        dates@.len() == entries@.len(),
    ensures
        final(out)@ == with_table(
            old(out)@,
            text::views(entries@),
            cache@,
            text::views(dates@),
            table@,
        ),
{
    let ghost all = text::views(entries@);
    let ghost shown = text::views(dates@);
    let (places, granted) = members_of(entries, table);
    let ghost rows = members(all, table@);
    let info = lookup(table);
    let heading = info.display.to_owned().concat("  (").concat(table).concat(")");
    let mark = if granted {
        paint(info.risk)
    } else {
        dimmed(info.risk.label().to_owned().concat(" risk · nothing granted").as_str())
    };
    out.line(
        "  ".to_owned().concat(bold(heading.as_str()).as_str()).concat("   ").concat(mark.as_str()),
    );
    out.line("  ".to_owned().concat(dimmed(info.grants).as_str()));
    out.line("  ".to_owned().concat(dimmed(repeat('─', 66).as_str()).as_str()));

    let mut ks: Vec<Vec<i128>> = Vec::new();
    let mut i: usize = 0;
    while i < places.len()
        invariant
            i <= places@.len(),
            all == text::views(entries@),
            rows == order::positions(places@),
            forall|k: int| 0 <= k < places@.len() ==> #[trigger] places@[k] < entries@.len(),
            ks@.len() == i,
            forall|k: int| 0 <= k < i ==> order::key(#[trigger] ks@[k]@) == recency_keys(all, rows)[k],
        decreases places@.len() - i,
    {
        let ts: i64 = match entries[places[i]].issued_at {
            Some(ts) => ts,
            None => 0,
        };
        let mut k: Vec<i128> = Vec::new();
        k.push(0i128 - ts as i128);
        proof {
            assert(rows[i as int] == places@[i as int]);
            assert(order::key(k@) =~= recency_keys(all, rows)[i as int]);
        }
        ks.push(k);
        i = i + 1;
    }
    proof {
        assert(order::keys(ks@) =~= recency_keys(all, rows));
    }
    let ranks = order_of(&ks);
    let ghost listed = group(all, table@);
    let ghost before = out@;
    let mut j: usize = 0;
    proof {
        assert(listed.take(0) =~= Seq::empty());
    }
    while j < ranks.len()
        invariant
            j <= ranks@.len(),
            dates@.len() == entries@.len(),
            all == text::views(entries@),
            shown == text::views(dates@),
            rows == order::positions(places@),
            rows == members(all, table@),
            forall|k: int| 0 <= k < places@.len() ==> #[trigger] places@[k] < entries@.len(),
            order::positions(ranks@) == order::stable_order(recency_keys(all, rows)),
            order::is_order(recency_keys(all, rows), order::positions(ranks@)),
            listed == group(all, table@),
            out@ == with_rows(before, all, cache@, shown, listed.take(j as int)),
        decreases ranks@.len() - j,
    {
        proof {
            assert(order::positions(ranks@)[j as int] == ranks@[j as int]);
            assert(rows[ranks@[j as int] as int] == places@[ranks@[j as int] as int]);
            assert(listed.take(j + 1).drop_last() =~= listed.take(j as int));
            assert(listed.take(j + 1).last() == places@[ranks@[j as int] as int]);
        }
        let place: usize = places[ranks[j]];
        add_row(out, &entries[place], cache, dates[place].as_str());
        j = j + 1;
    }
    proof {
        assert(listed.take(j as int) =~= listed);
    }
}

/// The lines of the report on permissions, given the times of the grants.
pub fn report_human(entries: &Vec<Entry>, cache: &Cache, dates: &Vec<String>) -> (r: Vec<String>)
    requires
        dates@.len() == entries@.len(),
    ensures
        text::views(r@) == listing_lines(text::views(entries@), cache@, text::views(dates@)),
{
    let ghost all = text::views(entries@);
    let ghost shown = text::views(dates@);
    let mut out = Lines::new();
    if entries.len() == 0 {
        out.line(
            "\n  ".to_owned().concat(bold("Nothing to audit.").as_str()).concat(
                "\n\n  No desktop-portal permission is granted on this machine.\n",
            ),
        );
        proof {
            assert(out@ =~= listing_lines(all, cache@, shown));
        }
        return out.list;
    }
    out.line("".to_owned());
    let names = tables_of(entries);
    let ghost tables = tables_in(all);
    let mut ks: Vec<Vec<i128>> = Vec::new();
    let mut i: usize = 0;
    while i < names.len()
        invariant
            i <= names@.len(),
            tables == text::views(names@),
            ks@.len() == i,
            forall|k: int| 0 <= k < i ==> order::key(#[trigger] ks@[k]@) == table_keys(tables)[k],
        decreases names@.len() - i,
    {
        let mut k: Vec<i128> = Vec::new();
        k.push(0i128 - lookup(names[i].as_str()).risk.level());
        let ghost risk_key = order::key(k@);
        proof {
            assert(risk_key =~= seq![-risk::risk_level(risk::info(names@[i as int]@).risk)]);
        }
        extend_key(&mut k, names[i].as_str());
        proof {
            assert(order::key(k@) == table_key(names@[i as int]@));
        }
        ks.push(k);
        i = i + 1;
    }
    proof {
        assert(order::keys(ks@) =~= table_keys(tables));
    }
    let ranks = order_of(&ks);
    let ghost listed = tables_by_risk(all);
    let mut j: usize = 0;
    proof {
        assert(out@ =~= seq![""@]);
        assert(listed.take(0) =~= Seq::empty());
    }
    while j < ranks.len()
        invariant
            j <= ranks@.len(),
            dates@.len() == entries@.len(),
            all == text::views(entries@),
            shown == text::views(dates@),
            tables == text::views(names@),
            tables == tables_in(all),
            order::positions(ranks@) == order::stable_order(table_keys(tables)),
            order::is_order(table_keys(tables), order::positions(ranks@)),
            listed == tables_by_risk(all),
            out@ == with_tables(seq![""@], all, cache@, shown, listed.take(j as int)),
        decreases ranks@.len() - j,
    {
        proof {
            assert(order::positions(ranks@)[j as int] == ranks@[j as int]);
            assert(listed.take(j + 1).drop_last() =~= listed.take(j as int));
            assert(listed.take(j + 1).last() == names@[ranks@[j as int] as int]@);
        }
        add_table(&mut out, entries, cache, dates, names[ranks[j]].as_str());
        j = j + 1;
    }
    proof {
        assert(listed.take(j as int) =~= listed);
    }
    summarize(&mut out, entries, cache);
    out.list
}

// ---------------------------------------------------------------------------
// The document
// ---------------------------------------------------------------------------
/// An attribution as a JSON value.
pub open spec fn attribution_value(r: RecordView) -> JsonView {
    JsonView::Object(
        Map::empty().insert("app"@, JsonView::Str(r.identity.label())).insert(
            "exe"@,
            json::text_view(r.identity.exe),
        ).insert("cmdline"@, json::text_view(r.identity.cmdline)).insert(
            "first_seen"@,
            json::int_view(r.first_seen),
        ).insert("last_seen"@, json::int_view(r.last_seen)),
    )
}

/// A row as a JSON value.
pub open spec fn row_value(e: EntryView, cache: Map<Text, RecordView>) -> JsonView {
    JsonView::Object(
        Map::empty().insert("table"@, JsonView::Str(e.table)).insert("id"@, JsonView::Str(e.id)).insert(
            "risk"@,
            JsonView::Str(risk::risk_json_name(risk::info(e.table).risk)),
        ).insert("grants"@, JsonView::Str(risk::info(e.table).grants)).insert(
            "decision"@,
            JsonView::Str(store::decision_name(store::decided(e.permissions))),
        ).insert(
            "apps"@,
            JsonView::Array(json::text_views(store::identified(e.permissions))),
        ).insert("unattributed"@, JsonView::Bool(store::anonymous(e.permissions))).insert(
            "attribution"@,
            if cache.contains_key(e.id) {
                attribution_value(cache[e.id])
            } else {
                JsonView::Null
            },
        ).insert("issued_at"@, json::whole_view(e.issued_at)).insert("data"@, e.data),
    )
}

/// The report on permissions, as a document.
pub open spec fn listing_document(
    entries: Seq<EntryView>,
    cache: Map<Text, RecordView>,
    now: i64,
) -> JsonView {
    JsonView::Object(
        Map::empty().insert("generated_at"@, json::int_view(now)).insert(
            "permissions"@,
            JsonView::Array(Seq::new(entries.len(), |i: int| row_value(entries[i], cache))),
        ),
    )
}

/// A row as a JSON value.
fn row_json(e: &Entry, cache: &Cache) -> (r: Json)
    ensures
        r@ == row_value(e@, cache@),
{
    let info = lookup(e.table.as_str());
    let attribution = match cache.get(e.id.as_str()) {
        Some(record) => Json::object().with("app", Json::Str(record.identity.label())).with(
            "exe",
            Json::text_or_null(&record.identity.exe),
        ).with("cmdline", Json::text_or_null(&record.identity.cmdline)).with(
            "first_seen",
            Json::whole(record.first_seen),
        ).with("last_seen", Json::whole(record.last_seen)),
        None => Json::Null,
    };
    Json::object().with("table", Json::string(e.table.as_str())).with(
        "id",
        Json::string(e.id.as_str()),
    ).with("risk", Json::string(info.risk.json_name())).with("grants", Json::string(info.grants)).with(
        "decision",
        Json::string(e.decision().json_name()),
    ).with("apps", Json::texts(&e.apps())).with("unattributed", Json::Bool(e.unattributed())).with(
        "attribution",
        attribution,
    ).with("issued_at", Json::whole_or_null(e.issued_at)).with("data", e.data.copy())
}

/// The report on permissions as a document, given the current time.
pub fn report_json(entries: &Vec<Entry>, cache: &Cache, now: i64) -> (r: Json)
    ensures
        r@ == listing_document(text::views(entries@), cache@, now),
{
    let ghost all = text::views(entries@);
    let ghost values = Seq::new(all.len(), |i: int| row_value(all[i], cache@));
    let mut items = Items::new();
    let mut i: usize = 0;
    while i < entries.len()
        invariant
            i <= entries@.len(),
            all == text::views(entries@),
            values == Seq::new(all.len(), |i: int| row_value(all[i], cache@)),
            items@ == values.take(i as int),
        decreases entries@.len() - i,
    {
        proof {
            assert(values.take(i + 1) =~= values.take(i as int).push(
                row_value(entries@[i as int]@, cache@),
            ));
        }
        items.item(row_json(&entries[i], cache));
        i = i + 1;
    }
    proof {
        assert(values.take(i as int) =~= values);
    }
    Json::object().with("generated_at", Json::whole(now)).with("permissions", items.array())
}

/// The report on permissions.
pub open spec fn listing_report(
    entries: Seq<EntryView>,
    cache: Map<Text, RecordView>,
    dates: Seq<Text>,
    json: bool,
    now: i64,
) -> ReportView {
    if json {
        ReportView::Document(listing_document(entries, cache, now))
    } else {
        ReportView::Lines(listing_lines(entries, cache, dates))
    }
}

/// The times of the grants of some rows.
pub open spec fn issue_times(entries: Seq<EntryView>) -> Seq<Option<i64>> {
    Seq::new(entries.len(), |i: int| entries[i].issued_at)
}

/// The report on permissions.
pub fn report(entries: &Vec<Entry>, cache: &Cache, json: bool) -> (r: Report)
    ensures
        exists|dates: Seq<Text>, now: i64|
            render::tell_times(issue_times(text::views(entries@)), dates) && r@
                == #[trigger] listing_report(text::views(entries@), cache@, dates, json, now),
{
    let ghost all = text::views(entries@);
    let mut times: Vec<Option<i64>> = Vec::new();
    let mut i: usize = 0;
    while i < entries.len()
        invariant
            i <= entries@.len(),
            all == text::views(entries@),
            times@ == issue_times(all).take(i as int),
        decreases entries@.len() - i,
    {
        proof {
            assert(issue_times(all).take(i + 1) =~= issue_times(all).take(i as int).push(
                entries@[i as int].issued_at,
            ));
        }
        times.push(entries[i].issued_at);
        i = i + 1;
    }
    proof {
        assert(issue_times(all).take(i as int) =~= issue_times(all));
    }
    let dates = format_times(&times);
    let moment: i64 = now();
    let r = if json {
        Report::Document(report_json(entries, cache, moment))
    } else {
        Report::Lines(report_human(entries, cache, &dates))
    };
    proof {
        assert(r@ == listing_report(all, cache@, text::views(dates@), json, moment));
    }
    r
}

// ---------------------------------------------------------------------------
// What the report comes to
// ---------------------------------------------------------------------------
/// What one row more adds to the counts, with the conditions spelled out. A grant
/// counts as one, and as a high risk where it exposes the screen, the camera, the
/// devices, the place or the controls of the machine, and as unattributed where
/// no application is named and its token is not on record. A refusal counts as
/// nothing but a refusal.
#[verifier::rlimit(50)]
pub proof fn law_what_a_row_counts_for(
    entries: Seq<EntryView>,
    cache: Map<Text, RecordView>,
    e: EntryView,
)
    ensures
        ({
            let before = tally_of(entries, cache);
            let after = tally_of(entries.push(e), cache);
            let granted = store::decided(e.permissions) == Decision::Granted;
            let exposed = e.table == "screencast"@ || e.table == "screenshot"@ || e.table == "camera"@
                || e.table == "devices"@ || e.table == "location"@ || e.table == "remote-desktop"@;
            let nameless = forall|app: Text| #[trigger]
                e.permissions.contains_key(app) ==> app.len() == 0;
            let first = forall|k: int| 0 <= k < entries.len() ==> (#[trigger] entries[k]).table != e.table;
            &&& after.total == before.total + 1
            &&& after.granted == before.granted + if granted {
                1nat
            } else {
                0nat
            }
            &&& after.denied == before.denied + if store::decided(e.permissions) == Decision::Denied {
                1nat
            } else {
                0nat
            }
            &&& after.high == before.high + if granted && exposed {
                1nat
            } else {
                0nat
            }
            &&& after.unattributed == before.unattributed + if granted && nameless
                && !cache.contains_key(e.id) {
                1nat
            } else {
                0nat
            }
            &&& after.tables == before.tables + if first {
                1nat
            } else {
                0nat
            }
        }),
        tally_of(Seq::empty(), cache) == (TallyView {
            total: 0,
            tables: 0,
            granted: 0,
            denied: 0,
            high: 0,
            unattributed: 0,
        }),
{
    assert(entries.push(e).drop_last() =~= entries);
    risk::law_risk_of_each_table(e.table);
    let names = tables_in(entries);
    if names.contains(e.table) {
        let k = choose|k: int| 0 <= k < names.len() && names[k] == e.table;
        let i = lemma_table_of_a_row(entries, k);
        assert(entries[i].table == e.table);
    } else {
        assert forall|k: int| 0 <= k < entries.len() implies (#[trigger] entries[k]).table != e.table by {
            lemma_table_occurs(entries, k);
        }
    }
}

/// Each table is that of some row.
proof fn lemma_table_of_a_row(entries: Seq<EntryView>, k: int) -> (i: int)
    requires
        0 <= k < tables_in(entries).len(),
    ensures
        0 <= i < entries.len(),
        entries[i].table == tables_in(entries)[k],
    decreases entries.len(),
{
    if k < tables_in(entries.drop_last()).len() {
        lemma_table_of_a_row(entries.drop_last(), k)
    } else {
        entries.len() - 1
    }
}

/// No table comes twice.
proof fn lemma_tables_differ(entries: Seq<EntryView>, i: int, j: int)
    requires
        0 <= i < tables_in(entries).len(),
        0 <= j < tables_in(entries).len(),
        tables_in(entries)[i] == tables_in(entries)[j],
    ensures
        i == j,
    decreases entries.len(),
{
    let before = tables_in(entries.drop_last());
    if i < before.len() && j < before.len() {
        lemma_tables_differ(entries.drop_last(), i, j);
    } else if i < before.len() {
        assert(before.contains(before[i]));
    } else if j < before.len() {
        assert(before.contains(before[j]));
    }
}

/// The tables in the report are those of the rows, each once. What exposes more
/// comes first, and tables of the same risk come in alphabetical order.
#[verifier::rlimit(50)]
pub proof fn law_how_tables_come(entries: Seq<EntryView>, i: int, j: int, n: int)
    requires
        0 <= i < j < tables_by_risk(entries).len(),
    ensures
        ({
            let a = tables_by_risk(entries)[i];
            let b = tables_by_risk(entries)[j];
            &&& a != b
            &&& exists|k: int| 0 <= k < entries.len() && (#[trigger] entries[k]).table == a
            &&& risk::info(b).risk == Risk::High ==> risk::info(a).risk == Risk::High
            &&& risk::info(a).risk == Risk::Info ==> risk::info(b).risk == Risk::Info
            &&& risk::info(b).risk == Risk::Medium ==> risk::info(a).risk != Risk::Low
            &&& risk::info(a).risk == risk::info(b).risk && 0 <= n < a.len() && n < b.len() && a.take(n)
                == b.take(n) ==> a[n] as u32 <= b[n] as u32
        }),
{
    let names = tables_in(entries);
    let keys = table_keys(names);
    let places = order::stable_order(keys);
    let a = tables_by_risk(entries)[i];
    let b = tables_by_risk(entries)[j];
    order::lemma_order_exists(keys);
    let k = lemma_table_of_a_row(entries, places[i]);
    assert(entries[k].table == a);
    if a == b {
        lemma_tables_differ(entries, places[i], places[j]);
        order::lemma_order_distinct(keys, places, i, j);
    }
    law_higher_risk_comes_first(entries, i, j);
    if risk::info(a).risk == risk::info(b).risk && 0 <= n < a.len() && n < b.len() && a.take(n)
        == b.take(n) && (b[n] as u32) < (a[n] as u32) {
        let x = keys[places[i]];
        let y = keys[places[j]];
        assert(order::belongs_before(keys, places[i], places[j]));
        assert(x == table_key(a));
        assert(y == table_key(b));
        assert(x.drop_first() =~= order::text_key(a));
        assert(y.drop_first() =~= order::text_key(b));
        order::law_first_difference_decides(b, a, n);
        assert(x[0] == y[0]);
        if x == y {
            order::lemma_text_key_injective(a, b);
        }
    }
}

/// Below a table its rows come with the latest grant first, and those whose time
/// is not known last, after every grant of our time. Rows of the same time keep
/// the order of the list, and no row comes twice.
pub proof fn law_how_rows_come(entries: Seq<EntryView>, table: Text, i: int, j: int)
    requires
        0 <= i < j < group(entries, table).len(),
    ensures
        ({
            let a = entries[group(entries, table)[i]];
            let b = entries[group(entries, table)[j]];
            &&& a.table == table && b.table == table
            &&& a.issued_at is Some && b.issued_at is Some ==> a.issued_at->0 >= b.issued_at->0
            &&& a.issued_at is None && b.issued_at is Some ==> b.issued_at->0 <= 0
            &&& a.issued_at == b.issued_at ==> group(entries, table)[i] < group(entries, table)[j]
            &&& group(entries, table)[i] != group(entries, table)[j]
        }),
{
    let places = members(entries, table);
    let keys = recency_keys(entries, places);
    let ranks = order::stable_order(keys);
    order::lemma_order_exists(keys);
    lemma_members(entries, table);
    let p = ranks[i];
    let q = ranks[j];
    assert(order::belongs_before(keys, p, q));
    assert(keys[p] == seq![-issued_or_zero(entries[places[p]])]);
    assert(keys[q] == seq![-issued_or_zero(entries[places[q]])]);
    if order::key_lt(keys[p], keys[q]) {
        assert(keys[p].drop_first() =~= Seq::<int>::empty());
        assert(keys[q].drop_first() =~= Seq::<int>::empty());
        assert(!order::key_lt(keys[p].drop_first(), keys[q].drop_first()));
        assert(keys[p][0] < keys[q][0]);
    } else {
        assert(keys[p][0] == keys[q][0]);
    }
    lemma_members_rise(entries, table);
    if p < q {
        assert(places[p] < places[q]);
    } else if q < p {
        assert(places[q] < places[p]);
    } else {
        order::lemma_order_distinct(keys, ranks, i, j);
    }
}

/// The places of a table's rows are in the order of the list.
proof fn lemma_members_rise(entries: Seq<EntryView>, table: Text)
    ensures
        forall|p: int, q: int|
            0 <= p < q < members(entries, table).len() ==> #[trigger] members(entries, table)[p]
                < #[trigger] members(entries, table)[q],
    decreases entries.len(),
{
    if entries.len() > 0 {
        let rest = entries.drop_last();
        let before = members(rest, table);
        let all = members(entries, table);
        lemma_members_rise(rest, table);
        lemma_members(rest, table);
        assert forall|p: int, q: int| 0 <= p < q < all.len() implies #[trigger] all[p]
            < #[trigger] all[q] by {
            assert(before[p] == all[p]);
            if q < before.len() {
                assert(before[q] == all[q]);
            }
        }
    }
}

/// What is said of a row. A refusal is called one, and raises no alarm; a value
/// that is neither a yes nor a no is called strange; a grant is said to be held by
/// whoever its token is attributed to, or else by its applications, and where
/// there are none, by nobody that is known.
pub proof fn law_what_is_said_of_a_row(e: EntryView, cache: Map<Text, RecordView>)
    ensures
        store::decided(e.permissions) == Decision::Denied ==> status(e, cache) == "\x1b[32m"@
            + "denied"@ + "\x1b[39m"@,
        store::decided(e.permissions) == Decision::Unknown ==> status(e, cache) == "\x1b[2m"@
            + "non-standard value"@ + "\x1b[0m"@,
        store::decided(e.permissions) == Decision::Granted && cache.contains_key(e.id) ==> status(
            e,
            cache,
        ) == "\x1b[32m"@ + cache[e.id].identity.label() + "\x1b[39m"@,
        store::decided(e.permissions) == Decision::Granted && !cache.contains_key(e.id) && (forall|
            app: Text,
        | #[trigger] e.permissions.contains_key(app) ==> app.len() == 0) ==> status(e, cache)
            == "\x1b[33m"@ + "unattributed"@ + "\x1b[39m"@,
        store::decided(e.permissions) == Decision::Granted && !cache.contains_key(e.id) && (exists|
            app: Text,
        | #[trigger] e.permissions.contains_key(app) && app.len() > 0) ==> status(e, cache)
            == "\x1b[32m"@ + split::joined(store::identified(e.permissions), ", "@) + "\x1b[39m"@,
{
}

/// A table's risk is shown in colour exactly where something in it is granted;
/// else it is said that nothing is.
pub proof fn law_the_badge_of_a_table(entries: Seq<EntryView>, table: Text)
    ensures
        (exists|k: int|
            0 <= k < entries.len() && (#[trigger] entries[k]).table == table && store::decided(
                entries[k].permissions,
            ) == Decision::Granted) ==> badge(entries, table) == match risk::info(table).risk {
            Risk::High => "\x1b[1m"@ + ("\x1b[31m"@ + ("HIGH"@ + " risk"@) + "\x1b[39m"@) + "\x1b[0m"@,
            Risk::Medium => "\x1b[33m"@ + ("MEDIUM"@ + " risk"@) + "\x1b[39m"@,
            Risk::Low => "\x1b[34m"@ + ("LOW"@ + " risk"@) + "\x1b[39m"@,
            Risk::Info => "\x1b[2m"@ + ("INFO"@ + " risk"@) + "\x1b[0m"@,
        },
        (forall|k: int|
            0 <= k < entries.len() && (#[trigger] entries[k]).table == table ==> store::decided(
                entries[k].permissions,
            ) != Decision::Granted) ==> split::occurs_in(
            badge(entries, table),
            " risk · nothing granted"@,
        ),
{
    broadcast use crate::split::group_occurs;

}

/// What stands below a row: its token with what is said of it, its executable
/// where one is known, the time where one is known, and each of its details. What
/// came before stays.
#[verifier::rlimit(50)]
pub proof fn law_what_stands_below_a_row(
    l: Seq<Text>,
    e: EntryView,
    cache: Map<Text, RecordView>,
    date: Text,
    i: int,
)
    ensures
        ({
            let all = with_row(l, e, cache, date);
            let exe = if cache.contains_key(e.id) && cache[e.id].identity.exe is Some {
                1int
            } else {
                0
            };
            let time = if e.issued_at is Some {
                1int
            } else {
                0
            };
            let n = l.len() as int;
            &&& l.is_prefix_of(all)
            &&& all.len() == n + 2 + exe + time + e.details.len()
            &&& split::occurs_in(all[n], e.id)
            &&& status(e, cache).is_suffix_of(all[n])
            &&& exe == 1 ==> split::occurs_in(all[n + 1], cache[e.id].identity.exe->0)
            &&& time == 1 ==> date.is_suffix_of(all[n + 1 + exe])
            &&& 0 <= i < e.details.len() ==> split::occurs_in(
                all[n + 1 + exe + time + i],
                e.details[i].0,
            ) && e.details[i].1.is_suffix_of(all[n + 1 + exe + time + i])
        }),
{
    broadcast use crate::split::group_occurs;

    let head = l.push(
        "    "@ + style::in_dim("•"@) + " "@ + style::in_bold(e.id) + "   "@ + status(e, cache),
    );
    let second = match executable(cache, e.id) {
        Some(exe) => head.push(row_field("executable"@, style::in_dim(exe))),
        None => head,
    };
    let third = if e.issued_at is Some {
        second.push(row_field("granted"@, date))
    } else {
        second
    };
    lemma_details(third, e.details, i);
    let all = with_row(l, e, cache, date);
    assert(all == with_details(third, e.details).push(""@));
    assert(all.take(l.len() as int) =~= l);
    let n = l.len() as int;
    let line = all[n];
    assert(line == head[n]);
    assert(line.subrange(line.len() - status(e, cache).len(), line.len() as int) =~= status(e, cache));
    if e.issued_at is Some {
        let shown = row_field("granted"@, date);
        assert(shown.subrange(shown.len() - date.len(), shown.len() as int) =~= date);
    }
    if 0 <= i < e.details.len() {
        let shown = row_field(e.details[i].0, e.details[i].1);
        let value = e.details[i].1;
        assert(shown.subrange(shown.len() - value.len(), shown.len() as int) =~= value);
        lemma_field_label(e.details[i].0, value);
    }
}

/// A label stands in its line.
proof fn lemma_field_label(label: Text, value: Text)
    ensures
        split::occurs_in(row_field(label, value), label),
{
    broadcast use crate::split::group_occurs;

    assert(split::occurs_in(crate::format::padded_right(label, 11), label));
}

/// The lines of the details, behind those before.
proof fn lemma_details(l: Seq<Text>, details: Seq<(Text, Text)>, i: int)
    ensures
        with_details(l, details).len() == l.len() + details.len(),
        forall|k: int| 0 <= k < l.len() ==> #[trigger] with_details(l, details)[k] == l[k],
        0 <= i < details.len() ==> with_details(l, details)[l.len() + i] == row_field(
            details[i].0,
            details[i].1,
        ),
    decreases details.len(),
{
    if details.len() > 0 {
        lemma_details(l, details.drop_last(), i);
    }
}

/// A place in the report where a row is shown: its token, and at the end of the
/// line what is said of it; below it its executable, where one is known, and its
/// time, where one is known.
pub open spec fn shows_row(
    lines: Seq<Text>,
    k: int,
    e: EntryView,
    cache: Map<Text, RecordView>,
    date: Text,
) -> bool {
    let exe = if cache.contains_key(e.id) && cache[e.id].identity.exe is Some {
        1int
    } else {
        0
    };
    &&& 0 <= k < lines.len()
    &&& split::occurs_in(lines[k], e.id)
    &&& status(e, cache).is_suffix_of(lines[k])
    &&& exe == 1 ==> k + 1 < lines.len() && split::occurs_in(
        lines[k + 1],
        cache[e.id].identity.exe->0,
    )
    &&& e.issued_at is Some ==> k + 1 + exe < lines.len() && date.is_suffix_of(lines[k + 1 + exe])
}

/// Every row is shown, whatever its table, with its own time.
pub proof fn law_every_row_is_shown(
    entries: Seq<EntryView>,
    cache: Map<Text, RecordView>,
    dates: Seq<Text>,
    i: int,
)
    requires
        0 <= i < entries.len(),
    ensures
        exists|k: int| #[trigger]
            shows_row(listing_lines(entries, cache, dates), k, entries[i], cache, dates[i]),
{
    let tables = tables_by_risk(entries);
    let table = entries[i].table;
    law_every_row_is_listed(entries, i);
    let t = choose|t: int| 0 <= t < tables.len() && tables[t] == table;
    assert(group(entries, table).contains(i));
    let k = lemma_tables_shown(seq![""@], entries, cache, dates, tables, t, i);
    let body = with_tables(seq![""@], entries, cache, dates, tables);
    let all = with_summary(body, tally_of(entries, cache));
    lemma_still_shown(body, all, k, entries[i], cache, dates[i]);
    assert(all == listing_lines(entries, cache, dates));
}

/// What is shown stays shown with more lines behind it.
proof fn lemma_still_shown(
    before: Seq<Text>,
    after: Seq<Text>,
    k: int,
    e: EntryView,
    cache: Map<Text, RecordView>,
    date: Text,
)
    requires
        shows_row(before, k, e, cache, date),
        before.len() <= after.len(),
        forall|j: int| 0 <= j < before.len() ==> #[trigger] after[j] == before[j],
    ensures
        shows_row(after, k, e, cache, date),
{
}

/// The rows below a table are shown, and what came before stays.
proof fn lemma_rows_shown(
    l: Seq<Text>,
    entries: Seq<EntryView>,
    cache: Map<Text, RecordView>,
    dates: Seq<Text>,
    places: Seq<int>,
    p: int,
) -> (k: int)
    ensures
        with_rows(l, entries, cache, dates, places).len() >= l.len(),
        forall|j: int|
            0 <= j < l.len() ==> #[trigger] with_rows(l, entries, cache, dates, places)[j] == l[j],
        0 <= p < places.len() ==> shows_row(
            with_rows(l, entries, cache, dates, places),
            k,
            entries[places[p]],
            cache,
            dates[places[p]],
        ),
    decreases places.len(),
{
    if places.len() == 0 {
        0
    } else {
        let rest = places.drop_last();
        let k = lemma_rows_shown(l, entries, cache, dates, rest, p);
        let before = with_rows(l, entries, cache, dates, rest);
        let all = with_rows(l, entries, cache, dates, places);
        let e = entries[places.last()];
        law_what_stands_below_a_row(before, e, cache, dates[places.last()], 0);
        assert forall|j: int| 0 <= j < before.len() implies #[trigger] all[j] == before[j] by {
            assert(all.take(before.len() as int)[j] == all[j]);
        }
        if p == places.len() - 1 {
            before.len() as int
        } else {
            if 0 <= p < rest.len() {
                lemma_still_shown(before, all, k, entries[places[p]], cache, dates[places[p]]);
            }
            k
        }
    }
}

/// The rows of a table in the report are shown.
proof fn lemma_tables_shown(
    l: Seq<Text>,
    entries: Seq<EntryView>,
    cache: Map<Text, RecordView>,
    dates: Seq<Text>,
    tables: Seq<Text>,
    t: int,
    i: int,
) -> (k: int)
    ensures
        0 <= t < tables.len() && group(entries, tables[t]).contains(i) ==> shows_row(
            with_tables(l, entries, cache, dates, tables),
            k,
            entries[i],
            cache,
            dates[i],
        ),
    decreases tables.len(),
{
    if tables.len() == 0 {
        0
    } else {
        let rest = tables.drop_last();
        let table = tables.last();
        let k = lemma_tables_shown(l, entries, cache, dates, rest, t, i);
        let before = with_tables(l, entries, cache, dates, rest);
        let all = with_tables(l, entries, cache, dates, tables);
        let places = group(entries, table);
        let p = if places.contains(i) {
            choose|p: int| 0 <= p < places.len() && places[p] == i
        } else {
            0
        };
        let q = lemma_table_shown(before, entries, cache, dates, table, p);
        if t == tables.len() - 1 {
            q
        } else {
            if 0 <= t < rest.len() && group(entries, tables[t]).contains(i) {
                lemma_still_shown(before, all, k, entries[i], cache, dates[i]);
            }
            k
        }
    }
}

/// The rows of one table are shown, and what came before stays.
proof fn lemma_table_shown(
    l: Seq<Text>,
    entries: Seq<EntryView>,
    cache: Map<Text, RecordView>,
    dates: Seq<Text>,
    table: Text,
    p: int,
) -> (k: int)
    ensures
        with_table(l, entries, cache, dates, table).len() >= l.len(),
        forall|j: int|
            0 <= j < l.len() ==> #[trigger] with_table(l, entries, cache, dates, table)[j] == l[j],
        0 <= p < group(entries, table).len() ==> shows_row(
            with_table(l, entries, cache, dates, table),
            k,
            entries[group(entries, table)[p]],
            cache,
            dates[group(entries, table)[p]],
        ),
{
    let info = risk::info(table);
    let head = l.push(
        "  "@ + style::in_bold(info.display + "  ("@ + table + ")"@) + "   "@ + badge(
            entries,
            table,
        ),
    ).push("  "@ + style::in_dim(info.grants)).push(
        "  "@ + style::in_dim(crate::format::repeated('─', 66)),
    );
    let all = with_table(l, entries, cache, dates, table);
    let k = lemma_rows_shown(head, entries, cache, dates, group(entries, table), p);
    assert forall|j: int| 0 <= j < l.len() implies #[trigger] all[j] == l[j] by {
        assert(all[j] == head[j]);
    }
    k
}

/// Above the rows of a table stand its name, with its risk, and what it grants.
pub proof fn law_what_stands_above_a_table(
    l: Seq<Text>,
    entries: Seq<EntryView>,
    cache: Map<Text, RecordView>,
    dates: Seq<Text>,
    table: Text,
)
    ensures
        ({
            let all = with_table(l, entries, cache, dates, table);
            let n = l.len() as int;
            &&& all.len() >= n + 3
            &&& split::occurs_in(all[n], risk::info(table).display)
            &&& split::occurs_in(all[n], table)
            &&& badge(entries, table).is_suffix_of(all[n])
            &&& split::occurs_in(all[n + 1], risk::info(table).grants)
        }),
{
    broadcast use crate::split::group_occurs;

    let info = risk::info(table);
    let first = "  "@ + style::in_bold(info.display + "  ("@ + table + ")"@) + "   "@ + badge(
        entries,
        table,
    );
    let second = "  "@ + style::in_dim(info.grants);
    let head = l.push(first).push(second).push(
        "  "@ + style::in_dim(crate::format::repeated('─', 66)),
    );
    let n = l.len() as int;
    let k = lemma_rows_shown(head, entries, cache, dates, group(entries, table), 0);
    let all = with_table(l, entries, cache, dates, table);
    assert(all[n] == head[n]);
    assert(all[n + 1] == head[n + 1]);
    let mark = badge(entries, table);
    assert(first.subrange(first.len() - mark.len(), first.len() as int) =~= mark);
}

/// The summary gives the counts, each with its name, and refusals only where there
/// are any; it explains what unattributed means only where something is.
#[verifier::rlimit(50)]
pub proof fn law_the_summary_gives_the_counts(l: Seq<Text>, t: TallyView)
    ensures
        ({
            let all = with_summary(l, t);
            let line = all[(l.len() + 1) as int];
            &&& l.is_prefix_of(all)
            &&& line == count_line(t)
            &&& ("    "@ + text::dec(t.total) + " "@).is_prefix_of(line)
            &&& (" · "@ + text::dec(t.unattributed) + " unattributed"@).is_suffix_of(line)
            &&& split::occurs_in(
                line,
                " across "@ + text::dec(t.tables) + " "@ + render::noun(t.tables, "table"@, "tables"@),
            )
            &&& split::occurs_in(
                line,
                " · "@ + text::dec(t.granted) + " granted, "@ + text::dec(t.high) + " high risk"@,
            )
            &&& t.denied > 0 ==> split::occurs_in(line, " · "@ + text::dec(t.denied) + " denied"@)
            &&& t.unattributed == 0 ==> all.len() == l.len() + 3
            &&& t.unattributed > 0 ==> all.len() == l.len() + 11
        }),
{
    broadcast use crate::split::group_occurs;

    let all = with_summary(l, t);
    assert(all.take(l.len() as int) =~= l);
    let line = count_line(t);
    let first = "    "@ + text::dec(t.total) + " "@;
    let noun = render::noun(t.total, "permission"@, "permissions"@);
    let across = " across "@ + text::dec(t.tables) + " "@ + render::noun(
        t.tables,
        "table"@,
        "tables"@,
    );
    let granted = " · "@ + text::dec(t.granted) + " granted, "@ + text::dec(t.high) + " high risk"@;
    let denied = if t.denied > 0 {
        " · "@ + text::dec(t.denied) + " denied"@
    } else {
        ""@
    };
    let last = " · "@ + text::dec(t.unattributed) + " unattributed"@;
    lemma_count_line(t);
    assert(line == first + noun + across + granted + denied + last);
    assert(line.take(first.len() as int) =~= first);
    assert(line.subrange(line.len() - last.len(), line.len() as int) =~= last);
}

/// The parts of the line with the counts.
#[verifier::rlimit(50)]
proof fn lemma_count_line(t: TallyView)
    ensures
        count_line(t) == ("    "@ + text::dec(t.total) + " "@) + render::noun(
            t.total,
            "permission"@,
            "permissions"@,
        ) + (" across "@ + text::dec(t.tables) + " "@ + render::noun(t.tables, "table"@, "tables"@)) + (
        " · "@ + text::dec(t.granted) + " granted, "@ + text::dec(t.high) + " high risk"@) + (
        if t.denied > 0 {
            " · "@ + text::dec(t.denied) + " denied"@
        } else {
            ""@
        }) + (" · "@ + text::dec(t.unattributed) + " unattributed"@),
{
    let start = ("    "@ + text::dec(t.total) + " "@) + render::noun(
        t.total,
        "permission"@,
        "permissions"@,
    );
    let across = " across "@ + text::dec(t.tables) + " "@ + render::noun(
        t.tables,
        "table"@,
        "tables"@,
    );
    let granted = " · "@ + text::dec(t.granted) + " granted, "@ + text::dec(t.high) + " high risk"@;
    let denied = if t.denied > 0 {
        " · "@ + text::dec(t.denied) + " denied"@
    } else {
        ""@
    };
    assert(start + " across "@ + text::dec(t.tables) + " "@ + render::noun(
        t.tables,
        "table"@,
        "tables"@,
    ) =~= start + across);
    assert(start + across + " · "@ + text::dec(t.granted) + " granted, "@ + text::dec(t.high)
        + " high risk"@ =~= start + across + granted);
    assert(start + across + granted + denied + " · "@ + text::dec(t.unattributed) + " unattributed"@
        =~= start + across + granted + denied + (" · "@ + text::dec(t.unattributed)
        + " unattributed"@));
}

/// Where there is nothing, that is said, and nothing else.
pub proof fn law_nothing_to_audit(cache: Map<Text, RecordView>, dates: Seq<Text>)
    ensures
        listing_lines(Seq::empty(), cache, dates).len() == 1,
        split::occurs_in(listing_lines(Seq::empty(), cache, dates)[0], "Nothing to audit."@),
{
    broadcast use crate::split::group_occurs;

}

/// What a program reads of a row, field by field.
#[verifier::rlimit(50)]
pub proof fn law_rows_for_programs(e: EntryView, cache: Map<Text, RecordView>)
    ensures
        ({
            let row = row_value(e, cache);
            &&& row.field("table"@) == Some(JsonView::Str(e.table))
            &&& row.field("id"@) == Some(JsonView::Str(e.id))
            &&& row.field("risk"@) == Some(
                JsonView::Str(
                    match risk::info(e.table).risk {
                        Risk::High => "high"@,
                        Risk::Medium => "medium"@,
                        Risk::Low => "low"@,
                        Risk::Info => "info"@,
                    },
                ),
            )
            &&& row.field("grants"@) == Some(JsonView::Str(risk::info(e.table).grants))
            &&& row.field("decision"@) == Some(
                JsonView::Str(
                    match store::decided(e.permissions) {
                        Decision::Granted => "granted"@,
                        Decision::Denied => "denied"@,
                        Decision::Unknown => "unknown"@,
                    },
                ),
            )
            &&& row.field("apps"@) matches Some(JsonView::Array(apps)) && apps.len()
                == store::identified(e.permissions).len() && forall|i: int|
                0 <= i < apps.len() ==> #[trigger] apps[i] == JsonView::Str(
                    store::identified(e.permissions)[i],
                )
            &&& row.field("unattributed"@) == Some(
                JsonView::Bool(
                    forall|app: Text| #[trigger] e.permissions.contains_key(app) ==> app.len() == 0,
                ),
            )
            &&& !cache.contains_key(e.id) ==> row.field("attribution"@) == Some(JsonView::Null)
            &&& cache.contains_key(e.id) ==> row.field("attribution"@) == Some(
                attribution_value(cache[e.id]),
            )
            &&& row.field("issued_at"@) matches Some(issued) && issued.signed() == e.issued_at
            &&& row.field("data"@) == Some(e.data)
        }),
{
    reveal_strlit("table");
    reveal_strlit("id");
    reveal_strlit("risk");
    reveal_strlit("grants");
    reveal_strlit("decision");
    reveal_strlit("apps");
    reveal_strlit("unattributed");
    reveal_strlit("attribution");
    reveal_strlit("issued_at");
    reveal_strlit("data");
    assert("table"@.len() == 5);
    assert("id"@.len() == 2);
    assert("risk"@.len() == 4);
    assert("grants"@.len() == 6);
    assert("decision"@.len() == 8);
    assert("apps"@.len() == 4);
    assert("unattributed"@.len() == 12);
    assert("attribution"@.len() == 11);
    assert("issued_at"@.len() == 9);
    assert("data"@.len() == 4);
    assert("risk"@[0] == 'r');
    assert("apps"@[0] == 'a');
    assert("data"@[0] == 'd');
}

/// What a program reads of an attribution, field by field.
pub proof fn law_attributions_for_programs(r: RecordView)
    ensures
        ({
            let value = attribution_value(r);
            &&& value.field("app"@) == Some(JsonView::Str(r.identity.label()))
            &&& value.field("exe"@) == Some(
                match r.identity.exe {
                    Some(exe) => JsonView::Str(exe),
                    None => JsonView::Null,
                },
            )
            &&& value.field("cmdline"@) == Some(
                match r.identity.cmdline {
                    Some(cmdline) => JsonView::Str(cmdline),
                    None => JsonView::Null,
                },
            )
            &&& value.field("first_seen"@) matches Some(first) && first.signed() == Some(r.first_seen)
            &&& value.field("last_seen"@) matches Some(last) && last.signed() == Some(r.last_seen)
        }),
{
    reveal_strlit("app");
    reveal_strlit("exe");
    reveal_strlit("cmdline");
    reveal_strlit("first_seen");
    reveal_strlit("last_seen");
    assert("app"@.len() == 3);
    assert("exe"@.len() == 3);
    assert("cmdline"@.len() == 7);
    assert("first_seen"@.len() == 10);
    assert("last_seen"@.len() == 9);
    assert("app"@[0] == 'a');
    assert("exe"@[0] == 'e');
}

/// A program reads every row, in the order of the list.
pub proof fn law_every_row_for_programs(
    entries: Seq<EntryView>,
    cache: Map<Text, RecordView>,
    now: i64,
    i: int,
)
    ensures
        ({
            let document = listing_document(entries, cache, now);
            &&& document.field("generated_at"@) matches Some(time) && time.signed() == Some(now)
            &&& document.field("permissions"@) matches Some(JsonView::Array(rows)) && rows.len()
                == entries.len() && (0 <= i < rows.len() ==> rows[i] == row_value(entries[i], cache))
        }),
{
    reveal_strlit("generated_at");
    reveal_strlit("permissions");
    assert("generated_at"@.len() == 12);
    assert("permissions"@.len() == 11);
}

/// A report for programs is a document, and one for people is lines; the time of a
/// row is that of its own grant.
pub proof fn law_listings_have_the_form_asked_for(
    entries: Seq<EntryView>,
    cache: Map<Text, RecordView>,
    dates: Seq<Text>,
    now: i64,
    i: int,
)
    ensures
        listing_report(entries, cache, dates, true, now) == ReportView::Document(
            listing_document(entries, cache, now),
        ),
        listing_report(entries, cache, dates, false, now) == ReportView::Lines(
            listing_lines(entries, cache, dates),
        ),
        issue_times(entries).len() == entries.len(),
        0 <= i < entries.len() ==> issue_times(entries)[i] == entries[i].issued_at,
{
}

} // verus!
