//! What the permission store holds.
//!
//! The store keeps one table per kind of permission. A row has an identifier,
//! says for each application what it may do, and carries data whose form each
//! portal decides for itself.
use vstd::prelude::*;
use crate::format::equals_ignoring_case;
use crate::json::{self, Json, JsonView};
use crate::order::{self, sort_texts};
use crate::paths;
use crate::split::begins_with;
use crate::table::Table;
use crate::text::{self, copy_pairs, copy_texts, decimal, same, signed_decimal, Text};

verus! {

/// What the applications of a row may do.
pub type Grants = Map<Text, Seq<Text>>;

/// A row of a table.
#[derive(Debug)]
pub struct Entry {
    pub table: String,
    pub id: String,
    /// What each application may do. The empty identifier stands for an
    /// application that could not be identified, which outside a sandbox is
    /// the usual case.
    pub permissions: Table<Vec<String>>,
    /// The row's data as it stands.
    pub data: Json,
    /// What the data says, as label and value, where the table can be read.
    pub details: Vec<(String, String)>,
    /// When the permission was granted, in Unix seconds, where the table says.
    pub issued_at: Option<i64>,
}

/// A row as the contracts see it.
pub struct EntryView {
    pub table: Text,
    pub id: Text,
    pub permissions: Grants,
    pub data: JsonView,
    pub details: Seq<(Text, Text)>,
    pub issued_at: Option<i64>,
}

/// What a table of permissions says.
pub open spec fn grants_of(permissions: Table<Vec<String>>) -> Grants {
    permissions@.map_values(|values: Vec<String>| text::views(values@))
}

impl View for Entry {
    type V = EntryView;

    open spec fn view(&self) -> EntryView {
        EntryView {
            table: self.table@,
            id: self.id@,
            permissions: grants_of(self.permissions),
            data: self.data@,
            details: text::views(self.details@),
            issued_at: self.issued_at,
        }
    }
}

/// A copy of what a row's applications may do.
fn copy_permissions(permissions: &Table<Vec<String>>) -> (r: Table<Vec<String>>)
    ensures
        grants_of(r) == grants_of(*permissions),
{
    let n = permissions.len();
    let ghost keys = permissions.keys();
    let ghost given = permissions@;
    let mut out: Table<Vec<String>> = Table::new();
    let mut i: usize = 0;
    while i < n
        invariant
            i <= n,
            n == keys.len(),
            keys == permissions.keys(),
            given == permissions@,
            forall|k: Text| #[trigger] out@.contains_key(k) <==> keys.take(i as int).contains(k),
            forall|k: Text| #[trigger]
                out@.contains_key(k) ==> text::views(out@[k]@) == text::views(given[k]@),
        decreases n - i,
    {
        let ghost before = out@;
        let ghost done = keys.take(i as int);
        let key = permissions.key_at(i);
        let values = copy_texts(permissions.value_at(i));
        let ghost copied = values;
        out.insert(key.to_owned(), values);
        proof {
            let next = keys.take(i + 1);
            assert(next =~= done.push(key@));
            assert forall|k: Text| #[trigger] out@.contains_key(k) <==> next.contains(k) by {
                if done.contains(k) {
                    let p = choose|p: int| 0 <= p < done.len() && done[p] == k;
                    assert(next[p] == k);
                }
                assert(next[i as int] == key@);
                assert(before.contains_key(k) <==> done.contains(k));
            }
            assert forall|k: Text| #[trigger] out@.contains_key(k) implies text::views(out@[k]@)
                == text::views(given[k]@) by {
                if k != key@ {
                    assert(before.contains_key(k));
                }
            }
        }
        i = i + 1;
    }
    proof {
        assert(keys.take(n as int) =~= keys);
        assert forall|k: Text| #[trigger] out@.contains_key(k) <==> given.contains_key(k) by {
            assert(keys.contains(k) <==> given.contains_key(k));
        }
        assert(grants_of(out) =~= grants_of(*permissions));
    }
    out
}

impl Clone for Entry {
    fn clone(&self) -> (r: Self)
        ensures
            r@ == self@,
    {
        Entry {
            table: self.table.clone(),
            id: self.id.clone(),
            permissions: copy_permissions(&self.permissions),
            data: self.data.copy(),
            details: copy_pairs(&self.details),
            issued_at: self.issued_at,
        }
    }
}

/// What the user decided. The store files refusals as well as grants, and a
/// refusal exposes nothing.
#[derive(Debug, Clone, Copy, PartialEq, Eq, Structural)]
pub enum Decision {
    Granted,
    Denied,
    /// A value that is neither a yes nor a no.
    Unknown,
}

/// The name of a decision in JSON reports.
pub open spec fn decision_name(decision: Decision) -> Text {
    match decision {
        Decision::Granted => "granted"@,
        Decision::Denied => "denied"@,
        Decision::Unknown => "unknown"@,
    }
}

impl Decision {
    /// The name of the decision in JSON reports.
    pub fn json_name(self) -> (r: &'static str)
        ensures
            r@ == decision_name(self),
    {
        match self {
            Decision::Granted => "granted",
            Decision::Denied => "denied",
            Decision::Unknown => "unknown",
        }
    }
}

/// Some application has a value of which `test` holds.
pub open spec fn some_value(grants: Grants, test: spec_fn(Text) -> bool) -> bool {
    exists|app: Text, i: int|
        grants.contains_key(app) && 0 <= i < grants[app].len() && test(#[trigger] grants[app][i])
}

/// A yes, in any case of letters.
pub open spec fn says_yes(value: Text) -> bool {
    crate::format::same_but_case(value, "yes"@)
}

/// A no, in any case of letters.
pub open spec fn says_no(value: Text) -> bool {
    crate::format::same_but_case(value, "no"@)
}

/// What the user decided: it is a grant if any application has a yes, and a
/// refusal if there are values and every one of them is a no.
pub open spec fn decided(grants: Grants) -> Decision {
    if some_value(grants, |v: Text| says_yes(v)) {
        Decision::Granted
    } else if some_value(grants, |v: Text| true) && !some_value(grants, |v: Text| !says_no(v)) {
        Decision::Denied
    } else {
        Decision::Unknown
    }
}

/// No application is identified.
pub open spec fn anonymous(grants: Grants) -> bool {
    forall|app: Text| #[trigger] grants.contains_key(app) ==> app.len() == 0
}

/// `list` holds the identified applications, in alphabetical order.
pub open spec fn lists_apps(grants: Grants, list: Seq<Text>) -> bool {
    &&& order::alphabetical(list)
    &&& forall|app: Text| #[trigger] list.contains(app) <==> grants.contains_key(app) && app.len() > 0
}

/// The identified applications, in alphabetical order.
pub open spec fn identified(grants: Grants) -> Seq<Text> {
    choose|list: Seq<Text>| lists_apps(grants, list)
}

/// Only one list holds the identified applications in order.
pub proof fn lemma_identified(grants: Grants, list: Seq<Text>)
    requires
        lists_apps(grants, list),
    ensures
        list == identified(grants),
{
    let other = identified(grants);
    assert(lists_apps(grants, other));
    assert forall|t: Text| #[trigger] list.contains(t) <==> other.contains(t) by {}
    order::lemma_alphabetical_unique(list, other);
}

impl Entry {
    /// Whether no application is identified.
    pub fn unattributed(&self) -> (r: bool)
        ensures
            r == anonymous(self@.permissions),
    {
        let n = self.permissions.len();
        let ghost keys = self.permissions.keys();
        let mut i: usize = 0;
        while i < n
            invariant
                i <= n,
                n == keys.len(),
                keys == self.permissions.keys(),
                forall|k: int| 0 <= k < i ==> (#[trigger] keys[k]).len() == 0,
            decreases n - i,
        {
            let app = self.permissions.key_at(i);
            if !app.is_empty() {
                proof {
                    assert(self@.permissions.contains_key(app@));
                }
                return false;
            }
            i = i + 1;
        }
        proof {
            assert forall|app: Text| #[trigger] self@.permissions.contains_key(app) implies app.len()
                == 0 by {
                assert(keys.contains(app));
            }
        }
        true
    }

    /// What the user decided.
    pub fn decision(&self) -> (r: Decision)
        ensures
            r == decided(self@.permissions),
    {
        let n = self.permissions.len();
        let ghost keys = self.permissions.keys();
        let ghost grants = self@.permissions;
        let mut any = false;
        let mut yes = false;
        let mut other = false;
        let mut i: usize = 0;
        while i < n
            invariant
                i <= n,
                n == keys.len(),
                keys == self.permissions.keys(),
                grants == self@.permissions,
                any ==> some_value(grants, |v: Text| true),
                yes ==> some_value(grants, |v: Text| says_yes(v)),
                other ==> some_value(grants, |v: Text| !says_no(v)),
                !any ==> forall|k: int| 0 <= k < i ==> grants[#[trigger] keys[k]].len() == 0,
                !yes ==> forall|k: int, j: int|
                    0 <= k < i && 0 <= j < grants[keys[k]].len() ==> !says_yes(
                        #[trigger] grants[keys[k]][j],
                    ),
                !other ==> forall|k: int, j: int|
                    0 <= k < i && 0 <= j < grants[keys[k]].len() ==> says_no(
                        #[trigger] grants[keys[k]][j],
                    ),
            decreases n - i,
        {
            let app = self.permissions.key_at(i);
            let values = self.permissions.value_at(i);
            proof {
                assert(grants.contains_key(app@));
                assert(grants[app@] == text::views(values@));
            }
            let m = values.len();
            let mut j: usize = 0;
            while j < m
                invariant
                    j <= m,
                    m == values@.len(),
                    i < n,
                    n == keys.len(),
                    app@ == keys[i as int],
                    grants.contains_key(app@),
                    grants[app@] == text::views(values@),
                    any ==> some_value(grants, |v: Text| true),
                    yes ==> some_value(grants, |v: Text| says_yes(v)),
                    other ==> some_value(grants, |v: Text| !says_no(v)),
                    !any ==> j == 0,
                    !any ==> forall|k: int| 0 <= k < i ==> grants[#[trigger] keys[k]].len() == 0,
                    !yes ==> forall|k: int, l: int|
                        0 <= k < i && 0 <= l < grants[keys[k]].len() ==> !says_yes(
                            #[trigger] grants[keys[k]][l],
                        ),
                    !yes ==> forall|l: int| 0 <= l < j ==> !says_yes(#[trigger] grants[app@][l]),
                    !other ==> forall|k: int, l: int|
                        0 <= k < i && 0 <= l < grants[keys[k]].len() ==> says_no(
                            #[trigger] grants[keys[k]][l],
                        ),
                    !other ==> forall|l: int| 0 <= l < j ==> says_no(#[trigger] grants[app@][l]),
                decreases m - j,
            {
                proof {
                    assert(grants[app@][j as int] == values@[j as int]@);
                    let everything = |v: Text| true;
                    assert(everything(grants[app@][j as int]));
                }
                any = true;
                if equals_ignoring_case(values[j].as_str(), "yes") {
                    proof {
                        let test = |v: Text| says_yes(v);
                        assert(test(grants[app@][j as int]));
                    }
                    yes = true;
                }
                if !equals_ignoring_case(values[j].as_str(), "no") {
                    proof {
                        let test = |v: Text| !says_no(v);
                        assert(test(grants[app@][j as int]));
                    }
                    other = true;
                }
                j = j + 1;
            }
            i = i + 1;
        }
        proof {
            assert forall|app: Text| #[trigger] grants.contains_key(app) implies exists|k: int|
                0 <= k < n && #[trigger] keys[k] == app by {
                assert(keys.contains(app));
            }
            if !any {
                assert(!some_value(grants, |v: Text| true));
            }
            if !yes {
                assert(!some_value(grants, |v: Text| says_yes(v)));
            }
            if !other {
                assert(!some_value(grants, |v: Text| !says_no(v)));
            }
        }
        if yes {
            Decision::Granted
        } else if any && !other {
            Decision::Denied
        } else {
            Decision::Unknown
        }
    }

    /// The identified applications, in alphabetical order.
    pub fn apps(&self) -> (r: Vec<String>)
        ensures
            text::views(r@) == identified(self@.permissions),
            lists_apps(self@.permissions, text::views(r@)),
    {
        broadcast use crate::text::group_views;

        let n = self.permissions.len();
        let ghost keys = self.permissions.keys();
        let mut found: Vec<String> = Vec::new();
        let mut i: usize = 0;
        while i < n
            invariant
                i <= n,
                n == keys.len(),
                keys == self.permissions.keys(),
                keys.no_duplicates(),
                text::views(found@).no_duplicates(),
                forall|t: Text| #[trigger]
                    text::views(found@).contains(t) <==> t.len() > 0 && keys.take(i as int).contains(t),
            decreases n - i,
        {
            let app = self.permissions.key_at(i);
            let ghost before = text::views(found@);
            proof {
                assert(keys.take(i + 1) =~= keys.take(i as int).push(app@));
                if keys.take(i as int).contains(app@) {
                    let k = choose|k: int| 0 <= k < i && keys.take(i as int)[k] == app@;
                    assert(keys[k] == keys[i as int]);
                }
                assert(!before.contains(app@));
            }
            if !app.is_empty() {
                found.push(app.to_owned());
                proof {
                    let after = text::views(found@);
                    assert(after == before.push(app@));
                    assert forall|t: Text| #[trigger] after.contains(t) <==> before.contains(t) || t
                        == app@ by {
                        if before.contains(t) {
                            let k = choose|k: int| 0 <= k < before.len() && before[k] == t;
                            assert(after[k] == t);
                        }
                        assert(after[before.len() as int] == app@);
                    }
                }
            }
            proof {
                assert forall|t: Text| #[trigger] keys.take(i + 1).contains(t) <==> keys.take(
                    i as int,
                ).contains(t) || t == app@ by {
                    let a = keys.take(i as int);
                    if a.contains(t) {
                        let k = choose|k: int| 0 <= k < a.len() && a[k] == t;
                        assert(a.push(app@)[k] == t);
                    }
                    assert(a.push(app@)[a.len() as int] == app@);
                }
            }
            i = i + 1;
        }
        let r = sort_texts(&found);
        proof {
            assert(keys.take(n as int) =~= keys);
            order::lemma_sorted_texts(text::views(found@));
            assert(lists_apps(self@.permissions, text::views(r@)));
            lemma_identified(self@.permissions, text::views(r@));
        }
        r
    }
}

/// Confusing a refusal with a grant is impossible: a row whose values are all
/// a no is a refusal, and a row with a yes is a grant whatever else it holds.
pub proof fn law_refusals_are_not_grants(grants: Grants)
    ensures
        some_value(grants, |v: Text| says_yes(v)) <==> decided(grants) == Decision::Granted,
        some_value(grants, |v: Text| true) && !some_value(grants, |v: Text| !says_no(v)) ==> decided(
            grants,
        ) == Decision::Denied,
{
    if some_value(grants, |v: Text| says_yes(v)) && !some_value(grants, |v: Text| !says_no(v)) {
        let (app, i) = choose|app: Text, i: int|
            grants.contains_key(app) && 0 <= i < grants[app].len() && says_yes(
                #[trigger] grants[app][i],
            );
        let value = grants[app][i];
        let other = |v: Text| !says_no(v);
        reveal_strlit("yes");
        reveal_strlit("no");
        assert(!says_no(value));
        assert(other(grants[app][i]));
    }
}

/// A row has no identified application exactly where it lists none.
pub proof fn law_anonymous_lists_nobody(grants: Grants, list: Seq<Text>)
    requires
        lists_apps(grants, list),
    ensures
        anonymous(grants) <==> list.len() == 0,
{
    if list.len() > 0 {
        assert(list.contains(list[0]));
    }
    if !anonymous(grants) {
        let app = choose|app: Text| #[trigger] grants.contains_key(app) && app.len() != 0;
        assert(list.contains(app));
    }
}

// ---------------------------------------------------------------------------
// Tables
// ---------------------------------------------------------------------------
/// What stands in the directory of the store.
pub struct Found {
    pub name: String,
    pub is_file: bool,
}

/// The names of the files that are not hidden, in the order of the listing.
pub open spec fn visible(listing: Seq<Found>) -> Seq<Text>
    decreases listing.len(),
{
    if listing.len() == 0 {
        Seq::empty()
    } else {
        let before = visible(listing.drop_last());
        let last = listing.last();
        if last.is_file && !"."@.is_prefix_of(last.name@) {
            before.push(last.name@)
        } else {
            before
        }
    }
}

/// The tables of the store, from the listing of its directory: one for each
/// file, but for the hidden ones that are left behind when a file is
/// rewritten.
pub fn discover_tables(listing: &Vec<Found>) -> (r: Vec<String>)
    ensures
        text::views(r@) == order::sorted_texts(visible(listing@)),
{
    broadcast use crate::text::group_views;

    let mut names: Vec<String> = Vec::new();
    let mut i: usize = 0;
    proof {
        assert(listing@.take(0) =~= Seq::empty());
    }
    while i < listing.len()
        invariant
            i <= listing@.len(),
            text::views(names@) == visible(listing@.take(i as int)),
        decreases listing@.len() - i,
    {
        proof {
            let next = listing@.take(i + 1);
            assert(next.drop_last() =~= listing@.take(i as int));
            assert(next.last() == listing@[i as int]);
        }
        if listing[i].is_file && !begins_with(listing[i].name.as_str(), ".") {
            names.push(listing[i].name.clone());
        }
        i = i + 1;
    }
    proof {
        assert(listing@.take(i as int) =~= listing@);
    }
    sort_texts(&names)
}

/// The tables to read: the one that was asked for, or all that there are.
pub open spec fn tables_asked(only: Option<Text>, listing: Seq<Found>) -> Seq<Text> {
    match only {
        Some(table) => seq![table],
        None => order::sorted_texts(visible(listing)),
    }
}

/// The tables to read: the one that was asked for, or all that there are.
pub fn tables_to_read(only: Option<&str>, listing: &Vec<Found>) -> (r: Vec<String>)
    ensures
        text::views(r@) == tables_asked(text::opt(only), listing@),
{
    match only {
        Some(table) => {
            let r: Vec<String> = vec![table.to_owned()];
            proof {
                assert(text::views(r@) =~= seq![table@]);
            }
            r
        },
        None => discover_tables(listing),
    }
}

/// Where the store keeps its tables.
pub open spec fn store_dir(xdg_data_home: Option<Seq<u8>>, home: Option<Seq<u8>>) -> Seq<u8> {
    paths::path_join(
        paths::path_join(
            paths::base_dir(
                xdg_data_home,
                home,
                paths::bytes(".local"),
                Some(paths::bytes("share")),
            ),
            paths::bytes("flatpak"),
        ),
        paths::bytes("db"),
    )
}

/// Where the store keeps its tables, given `XDG_DATA_HOME` and `HOME`.
pub fn db_dir(xdg_data_home: Option<Vec<u8>>, home: Option<Vec<u8>>) -> (r: Vec<u8>)
    ensures
        r@ == store_dir(text::opt(xdg_data_home), text::opt(home)),
{
    let base = paths::base(xdg_data_home, home, ".local", Some("share"));
    paths::join(paths::join(base, "flatpak"), "db")
}

// ---------------------------------------------------------------------------
// Data
// ---------------------------------------------------------------------------
/// A double: its bits, and its shortest decimal form.
pub struct Double {
    pub bits: u64,
    pub decimal: String,
}

/// A value of one of the bus's basic types.
pub enum Basic {
    U8(u8),
    Bool(bool),
    I16(i16),
    U16(u16),
    I32(i32),
    U32(u32),
    I64(i64),
    U64(u64),
    F64(Double),
    Str(String),
    Signature(String),
    ObjectPath(String),
}

/// A value from the bus.
pub enum Variant {
    Basic(Basic),
    Value(Box<Variant>),
    Array(Vec<Variant>),
    /// The keys of a dictionary are of a basic type.
    Dict(Vec<(Basic, Variant)>),
    Structure(Vec<Variant>),
    /// A value of another type, in the form that debugging shows.
    Other(String),
}

/// The bits of a double that is a number: its exponent is not all ones.
pub open spec fn finite(bits: u64) -> bool {
    (bits / 0x10_0000_0000_0000) % 0x800 != 0x7ff
}

/// A value of a basic type as JSON. A double that is not a number is null.
pub open spec fn basic_form(value: Basic) -> JsonView {
    match value {
        Basic::U8(n) => JsonView::Unsigned(n as u64),
        Basic::Bool(b) => JsonView::Bool(b),
        Basic::I16(n) => json::int_view(n as i64),
        Basic::U16(n) => JsonView::Unsigned(n as u64),
        Basic::I32(n) => json::int_view(n as i64),
        Basic::U32(n) => JsonView::Unsigned(n as u64),
        Basic::I64(n) => json::int_view(n),
        Basic::U64(n) => JsonView::Unsigned(n),
        Basic::F64(x) => if finite(x.bits) {
            JsonView::Float(x.bits)
        } else {
            JsonView::Null
        },
        Basic::Str(s) => JsonView::Str(s@),
        Basic::Signature(s) => JsonView::Str(s@),
        Basic::ObjectPath(s) => JsonView::Str(s@),
    }
}

/// A value of a basic type as the name of a JSON field: a text as it is, and
/// anything else in its JSON form.
pub open spec fn field_name(value: Basic) -> Text {
    match value {
        Basic::F64(x) => if finite(x.bits) {
            x.decimal@
        } else {
            "null"@
        },
        _ => match basic_form(value) {
            JsonView::Str(s) => s,
            JsonView::Bool(b) => if b {
                "true"@
            } else {
                "false"@
            },
            JsonView::Unsigned(n) => text::dec(n as nat),
            JsonView::Negative(n) => text::signed_dec(n as int),
            _ => Seq::empty(),
        },
    }
}

/// A value from the bus as JSON: nested values are unwrapped, structures
/// become arrays, and dictionaries become objects.
pub open spec fn json_form(value: Variant) -> JsonView
    decreases value,
{
    match value {
        Variant::Basic(basic) => basic_form(basic),
        Variant::Value(inner) => json_form(*inner),
        Variant::Array(items) => JsonView::Array(array_form(items@)),
        Variant::Dict(pairs) => JsonView::Object(object_form(pairs@)),
        Variant::Structure(fields) => JsonView::Array(array_form(fields@)),
        Variant::Other(shown) => JsonView::Str(shown@),
    }
}

pub open spec fn array_form(items: Seq<Variant>) -> Seq<JsonView>
    decreases items,
{
    if items.len() == 0 {
        Seq::empty()
    } else {
        array_form(items.drop_last()).push(json_form(items.last()))
    }
}

pub open spec fn object_form(pairs: Seq<(Basic, Variant)>) -> Map<Text, JsonView>
    decreases pairs,
{
    if pairs.len() == 0 {
        Map::empty()
    } else {
        object_form(pairs.drop_last()).insert(field_name(pairs.last().0), json_form(pairs.last().1))
    }
}

/// Whether the bits are those of a double that is a number.
fn is_finite(bits: u64) -> (r: bool)
    ensures
        r == finite(bits),
{
    (bits / 0x10_0000_0000_0000) % 0x800 != 0x7ff
}

/// A value of a basic type as JSON.
fn basic_to_json(value: &Basic) -> (r: Json)
    ensures
        r@ == basic_form(*value),
{
    match value {
        Basic::U8(n) => Json::Unsigned(*n as u64),
        Basic::Bool(b) => Json::Bool(*b),
        Basic::I16(n) => Json::whole(*n as i64),
        Basic::U16(n) => Json::Unsigned(*n as u64),
        Basic::I32(n) => Json::whole(*n as i64),
        Basic::U32(n) => Json::Unsigned(*n as u64),
        Basic::I64(n) => Json::whole(*n),
        Basic::U64(n) => Json::Unsigned(*n),
        Basic::F64(x) => if is_finite(x.bits) {
            Json::Float(x.bits)
        } else {
            Json::Null
        },
        Basic::Str(s) => Json::Str(s.clone()),
        Basic::Signature(s) => Json::Str(s.clone()),
        Basic::ObjectPath(s) => Json::Str(s.clone()),
    }
}

/// A value of a basic type as the name of a JSON field.
fn basic_to_name(value: &Basic) -> (r: String)
    ensures
        r@ == field_name(*value),
{
    match value {
        Basic::F64(x) => if is_finite(x.bits) {
            x.decimal.clone()
        } else {
            "null".to_owned()
        },
        other => match basic_to_json(other) {
            Json::Str(s) => s,
            Json::Bool(b) => if b {
                "true".to_owned()
            } else {
                "false".to_owned()
            },
            Json::Unsigned(n) => decimal(n),
            Json::Negative(n) => signed_decimal(n),
            _ => String::new(),
        },
    }
}

/// A value from the bus as JSON.
pub fn value_to_json(value: &Variant) -> (r: Json)
    ensures
        r@ == json_form(*value),
    decreases value,
{
    match value {
        Variant::Basic(basic) => basic_to_json(basic),
        Variant::Value(inner) => value_to_json(inner),
        Variant::Array(items) => Json::Array(values_to_json(items)),
        Variant::Dict(pairs) => {
            let mut out: Vec<(String, Json)> = Vec::new();
            let mut i: usize = 0;
            proof {
                assert(pairs@.take(0) =~= Seq::empty());
            }
            while i < pairs.len()
                invariant
                    i <= pairs@.len(),
                    decreases_to!(value => pairs),
                    json::object_view(out@) == object_form(pairs@.take(i as int)),
                decreases pairs@.len() - i,
            {
                let ghost before = out@;
                out.push((basic_to_name(&pairs[i].0), value_to_json(&pairs[i].1)));
                i = i + 1;
                proof {
                    assert(out@.drop_last() =~= before);
                    assert(pairs@.take(i as int).drop_last() =~= pairs@.take(i - 1));
                }
            }
            proof {
                assert(pairs@.take(i as int) =~= pairs@);
            }
            Json::Object(out)
        },
        Variant::Structure(fields) => Json::Array(values_to_json(fields)),
        Variant::Other(shown) => Json::Str(shown.clone()),
    }
}

fn values_to_json(items: &Vec<Variant>) -> (r: Vec<Json>)
    ensures
        json::array_view(r@) == array_form(items@),
    decreases items,
{
    let mut out: Vec<Json> = Vec::new();
    let mut i: usize = 0;
    proof {
        assert(items@.take(0) =~= Seq::empty());
    }
    while i < items.len()
        invariant
            i <= items@.len(),
            json::array_view(out@) == array_form(items@.take(i as int)),
        decreases items@.len() - i,
    {
        let ghost before = out@;
        out.push(value_to_json(&items[i]));
        i = i + 1;
        proof {
            assert(out@.drop_last() =~= before);
            assert(items@.take(i as int).drop_last() =~= items@.take(i - 1));
        }
    }
    proof {
        assert(items@.take(i as int) =~= items@);
    }
    out
}

// ---------------------------------------------------------------------------
// Reading the data of known tables
// ---------------------------------------------------------------------------
/// The text in an optional value.
pub open spec fn text_in(value: Option<JsonView>) -> Option<Text> {
    match value {
        Some(v) => v.text(),
        None => None,
    }
}

/// The number without sign in an optional value.
pub open spec fn unsigned_in(value: Option<JsonView>) -> Option<u64> {
    match value {
        Some(v) => v.unsigned(),
        None => None,
    }
}

/// The number with sign in an optional value.
pub open spec fn signed_in(value: Option<JsonView>) -> Option<i64> {
    match value {
        Some(v) => v.signed(),
        None => None,
    }
}

/// The field of an optional object.
pub open spec fn field_in(value: Option<JsonView>, name: Text) -> Option<JsonView> {
    match value {
        Some(v) => v.field(name),
        None => None,
    }
}

/// What a cursor mode means.
pub open spec fn cursor_text(bits: u64) -> Text {
    if bits == 1 {
        "hidden"@
    } else if bits == 2 {
        "embedded in the image"@
    } else if bits == 4 {
        "as metadata"@
    } else {
        "non-standard mode"@
    }
}

/// What a cursor mode means.
pub fn cursor_mode(bits: u64) -> (r: &'static str)
    ensures
        r@ == cursor_text(bits),
{
    if bits == 1 {
        "hidden"
    } else if bits == 2 {
        "embedded in the image"
    } else if bits == 4 {
        "as metadata"
    } else {
        "non-standard mode"
    }
}

/// The name of the backend, with the version of its data where it gives one.
pub open spec fn backend_text(vendor: Text, version: Option<u64>) -> Text {
    match version {
        Some(v) => vendor + " (format v"@ + text::dec(v as nat) + ")"@,
        None => vendor,
    }
}

/// What the data of a screen-capture permission says. It is the backend's
/// vendor, the version of its format, and a dictionary that each backend fills
/// as it likes, so each part counts where it is there and of the right type.
pub open spec fn screencast_details(data: JsonView) -> Seq<(Text, Text)> {
    let vendor = text_in(data.element(0));
    let version = unsigned_in(data.element(1));
    let output = text_in(field_in(data.element(2), "output"@));
    let cursor = unsigned_in(field_in(data.element(2), "withCursor"@));
    let d0 = Seq::<(Text, Text)>::empty();
    let d1 = match output {
        Some(o) => d0.push(("output"@, o)),
        None => d0,
    };
    let d2 = match cursor {
        Some(c) => d1.push(("cursor"@, cursor_text(c))),
        None => d1,
    };
    match vendor {
        Some(v) => d2.push(("backend"@, backend_text(v, version))),
        None => d2,
    }
}

/// When a screen-capture permission was granted.
pub open spec fn screencast_time(data: JsonView) -> Option<i64> {
    signed_in(field_in(data.element(2), "timeIssued"@))
}

/// Reads the data of a screen-capture permission.
pub fn interpret_screencast(data: &Json) -> (r: (Vec<(String, String)>, Option<i64>))
    ensures
        text::views(r.0@) == screencast_details(data@),
        r.1 == screencast_time(data@),
{
    broadcast use crate::text::group_views;

    let vendor = match data.at(0) {
        Some(v) => v.as_str(),
        None => None,
    };
    let version: Option<u64> = match data.at(1) {
        Some(v) => v.as_u64(),
        None => None,
    };
    let mut details: Vec<(String, String)> = Vec::new();
    let mut issued_at: Option<i64> = None;

    if let Some(payload) = data.at(2) {
        if let Some(v) = payload.get("output") {
            if let Some(output) = v.as_str() {
                details.push(("output".to_owned(), output.to_owned()));
            }
        }
        if let Some(v) = payload.get("withCursor") {
            if let Some(cursor) = v.as_u64() {
                details.push(("cursor".to_owned(), cursor_mode(cursor).to_owned()));
            }
        }
        if let Some(v) = payload.get("timeIssued") {
            issued_at = v.as_i64();
        }
    }
    if let Some(vendor) = vendor {
        let backend = match version {
            Some(v) => vendor.to_owned().concat(" (format v").concat(decimal(v).as_str()).concat(")"),
            None => vendor.to_owned(),
        };
        details.push(("backend".to_owned(), backend));
    }
    (details, issued_at)
}

/// What the data of a row says. Only screen-capture data can be read.
pub open spec fn details_of(table: Text, data: JsonView) -> Seq<(Text, Text)> {
    if table == "screencast"@ {
        screencast_details(data)
    } else {
        Seq::empty()
    }
}

/// When the permission of a row was granted, where its data says.
pub open spec fn issued_in(table: Text, data: JsonView) -> Option<i64> {
    if table == "screencast"@ {
        screencast_time(data)
    } else {
        None
    }
}

/// Reads the data of a row.
pub fn interpret(table: &str, data: &Json) -> (r: (Vec<(String, String)>, Option<i64>))
    ensures
        text::views(r.0@) == details_of(table@, data@),
        r.1 == issued_in(table@, data@),
{
    broadcast use crate::text::group_views;

    if same(table, "screencast") {
        interpret_screencast(data)
    } else {
        let nothing: Vec<(String, String)> = Vec::new();
        (nothing, None)
    }
}

/// A row, from what the store answers about it.
pub fn read_entry(table: &str, id: String, permissions: Table<Vec<String>>, data: &Variant) -> (r:
    Entry)
    ensures
        r@ == (EntryView {
            table: table@,
            id: id@,
            permissions: grants_of(permissions),
            data: json_form(*data),
            details: details_of(table@, json_form(*data)),
            issued_at: issued_in(table@, json_form(*data)),
        }),
{
    let data = value_to_json(data);
    let (details, issued_at) = interpret(table, &data);
    Entry { table: table.to_owned(), id, permissions, data, details, issued_at }
}

// ---------------------------------------------------------------------------
// What a row says
// ---------------------------------------------------------------------------
/// A yes, letter by letter.
pub open spec fn spells_yes(v: Text) -> bool {
    &&& v.len() == 3
    &&& v[0] == 'y' || v[0] == 'Y'
    &&& v[1] == 'e' || v[1] == 'E'
    &&& v[2] == 's' || v[2] == 'S'
}

/// A no, letter by letter.
pub open spec fn spells_no(v: Text) -> bool {
    &&& v.len() == 2
    &&& v[0] == 'n' || v[0] == 'N'
    &&& v[1] == 'o' || v[1] == 'O'
}

proof fn lemma_same_letter(c: char)
    ensures
        crate::format::ascii_small(c) == crate::format::ascii_small('y') <==> c == 'y' || c == 'Y',
        crate::format::ascii_small(c) == crate::format::ascii_small('e') <==> c == 'e' || c == 'E',
        crate::format::ascii_small(c) == crate::format::ascii_small('s') <==> c == 's' || c == 'S',
        crate::format::ascii_small(c) == crate::format::ascii_small('n') <==> c == 'n' || c == 'N',
        crate::format::ascii_small(c) == crate::format::ascii_small('o') <==> c == 'o' || c == 'O',
{
}

/// What counts as a yes and as a no.
proof fn lemma_spelling(v: Text)
    ensures
        says_yes(v) <==> spells_yes(v),
        says_no(v) <==> spells_no(v),
{
    reveal_strlit("yes");
    reveal_strlit("no");
    let yes = "yes"@;
    let no = "no"@;
    assert(yes.len() == 3 && yes[0] == 'y' && yes[1] == 'e' && yes[2] == 's');
    assert(no.len() == 2 && no[0] == 'n' && no[1] == 'o');
    if v.len() == 3 {
        lemma_same_letter(v[0]);
        lemma_same_letter(v[1]);
        lemma_same_letter(v[2]);
        if says_yes(v) {
            assert(crate::format::ascii_small(v[0]) == crate::format::ascii_small(yes[0]));
            assert(crate::format::ascii_small(v[1]) == crate::format::ascii_small(yes[1]));
            assert(crate::format::ascii_small(v[2]) == crate::format::ascii_small(yes[2]));
        }
    }
    if v.len() == 2 {
        lemma_same_letter(v[0]);
        lemma_same_letter(v[1]);
        if says_no(v) {
            assert(crate::format::ascii_small(v[0]) == crate::format::ascii_small(no[0]));
            assert(crate::format::ascii_small(v[1]) == crate::format::ascii_small(no[1]));
        }
    }
}

/// What the user decided: a yes of any application makes a grant, values that are
/// all a no make a refusal, and anything else is neither. Case does not count.
#[verifier::rlimit(50)]
pub proof fn law_what_was_decided(grants: Grants)
    ensures
        ({
            let yes = exists|app: Text, i: int|
                grants.contains_key(app) && 0 <= i < grants[app].len() && spells_yes(
                    #[trigger] grants[app][i],
                );
            let any = exists|app: Text, i: int|
                grants.contains_key(app) && 0 <= i < grants[app].len() && (#[trigger] grants[app][i]).len()
                    >= 0;
            let only_no = forall|app: Text, i: int|
                grants.contains_key(app) && 0 <= i < grants[app].len() ==> spells_no(
                    #[trigger] grants[app][i],
                );
            &&& decided(grants) == Decision::Granted <==> yes
            &&& decided(grants) == Decision::Denied <==> any && only_no
            &&& decided(grants) == Decision::Unknown <==> !yes && !(any && only_no)
        }),
{
    assert forall|v: Text| #![trigger says_yes(v)] #![trigger says_no(v)] #![trigger spells_yes(v)]
        #![trigger spells_no(v)] (says_yes(v) <==> spells_yes(v)) && (says_no(v) <==> spells_no(v)) by {
        lemma_spelling(v);
    }
    let all = |v: Text| true;
    let test = |v: Text| says_yes(v);
    let other = |v: Text| !says_no(v);
    if exists|app: Text, i: int|
        grants.contains_key(app) && 0 <= i < grants[app].len() && spells_yes(
            #[trigger] grants[app][i],
        ) {
        let (app, i) = choose|app: Text, i: int|
            grants.contains_key(app) && 0 <= i < grants[app].len() && spells_yes(
                #[trigger] grants[app][i],
            );
        assert(test(grants[app][i]));
        assert(some_value(grants, test));
        assert(!spells_no(grants[app][i]));
    }
    if exists|app: Text, i: int|
        grants.contains_key(app) && 0 <= i < grants[app].len() && (#[trigger] grants[app][i]).len()
            >= 0 {
        let (app, i) = choose|app: Text, i: int|
            grants.contains_key(app) && 0 <= i < grants[app].len() && (#[trigger] grants[app][i]).len()
                >= 0;
        assert(all(grants[app][i]));
        assert(some_value(grants, all));
    }
    if exists|app: Text, i: int|
        grants.contains_key(app) && 0 <= i < grants[app].len() && !spells_no(
            #[trigger] grants[app][i],
        ) {
        let (app, i) = choose|app: Text, i: int|
            grants.contains_key(app) && 0 <= i < grants[app].len() && !spells_no(
                #[trigger] grants[app][i],
            );
        assert(other(grants[app][i]));
        assert(some_value(grants, other));
    }
}

/// The applications of a row are those that have a name, each once, in
/// alphabetical order.
pub proof fn law_who_is_listed(grants: Grants, list: Seq<Text>, i: int, j: int, n: int)
    requires
        lists_apps(grants, list),
        0 <= i < j < list.len(),
        0 <= n < list[i].len(),
        n < list[j].len(),
        list[i].take(n) == list[j].take(n),
    ensures
        grants.contains_key(list[i]) && list[i].len() > 0,
        list[i] != list[j],
        list[i][n] as u32 <= list[j][n] as u32,
{
    assert(list.contains(list[i]));
    assert(order::key_lt(order::text_key(list[i]), order::text_key(list[j])));
    order::lemma_key_irreflexive(order::text_key(list[i]));
    if (list[j][n] as u32) < (list[i][n] as u32) {
        order::law_first_difference_decides(list[j], list[i], n);
    }
}

/// The tables of the store are its files, but for the hidden ones; directories
/// and the like do not count.
pub proof fn law_which_tables_there_are(listing: Seq<Found>, name: Text)
    ensures
        tables_asked(None, listing).contains(name) <==> exists|k: int|
            0 <= k < listing.len() && (#[trigger] listing[k]).name@ == name && listing[k].is_file && !(
            name.len() > 0 && name[0] == '.'),
        tables_asked(Some(name), listing) == seq![name],
{
    let found = visible(listing);
    order::lemma_arranged(found, order::text_keys(found));
    lemma_visible(listing, name);
}

proof fn lemma_visible(listing: Seq<Found>, name: Text)
    ensures
        visible(listing).contains(name) <==> exists|k: int|
            0 <= k < listing.len() && (#[trigger] listing[k]).name@ == name && listing[k].is_file && !(
            name.len() > 0 && name[0] == '.'),
    decreases listing.len(),
{
    reveal_strlit(".");
    assert("."@ =~= seq!['.']);
    assert("."@.is_prefix_of(name) <==> name.len() > 0 && name[0] == '.') by {
        if name.len() > 0 && name[0] == '.' {
            assert(name.take(1) =~= seq!['.']);
        }
        if "."@.is_prefix_of(name) {
            assert(name.take(1)[0] == '.');
        }
    }
    if listing.len() > 0 {
        let rest = listing.drop_last();
        let before = visible(rest);
        let all = visible(listing);
        lemma_visible(rest, name);
        if all.contains(name) {
            let k = choose|k: int| 0 <= k < all.len() && all[k] == name;
            if k < before.len() {
                assert(before[k] == name);
                let p = choose|p: int|
                    0 <= p < rest.len() && (#[trigger] rest[p]).name@ == name && rest[p].is_file && !(
                    name.len() > 0 && name[0] == '.');
                assert(listing[p].name@ == name);
            } else {
                assert(listing[listing.len() - 1].name@ == name);
            }
        }
        if exists|k: int|
            0 <= k < listing.len() && (#[trigger] listing[k]).name@ == name && listing[k].is_file && !(
            name.len() > 0 && name[0] == '.') {
            let k = choose|k: int|
                0 <= k < listing.len() && (#[trigger] listing[k]).name@ == name && listing[k].is_file
                    && !(name.len() > 0 && name[0] == '.');
            if k < rest.len() {
                assert(rest[k].name@ == name);
                let p = choose|p: int| 0 <= p < before.len() && before[p] == name;
                assert(all[p] == name);
            } else {
                assert(all[all.len() - 1] == name);
            }
        }
    }
}

/// The tables come in alphabetical order.
pub proof fn law_tables_are_in_order(listing: Seq<Found>, i: int, j: int, n: int)
    requires
        0 <= i < j < tables_asked(None, listing).len(),
        0 <= n < tables_asked(None, listing)[i].len(),
        n < tables_asked(None, listing)[j].len(),
        tables_asked(None, listing)[i].take(n) == tables_asked(None, listing)[j].take(n),
    ensures
        tables_asked(None, listing)[i][n] as u32 <= tables_asked(None, listing)[j][n] as u32,
{
    let found = visible(listing);
    let list = tables_asked(None, listing);
    order::lemma_arranged(found, order::text_keys(found));
    order::law_texts_are_sorted(found, i, j);
    if (list[j][n] as u32) < (list[i][n] as u32) {
        order::law_first_difference_decides(list[j], list[i], n);
    }
}

/// Numbers, texts and truth values come over as they are, whatever the size of
/// their type.
pub proof fn law_basic_values_come_over(value: Basic)
    ensures
        match value {
            Basic::U8(n) => basic_form(value) == JsonView::Unsigned(n as u64),
            Basic::U16(n) => basic_form(value) == JsonView::Unsigned(n as u64),
            Basic::U32(n) => basic_form(value) == JsonView::Unsigned(n as u64),
            Basic::U64(n) => basic_form(value) == JsonView::Unsigned(n),
            Basic::I16(n) => basic_form(value).signed() == Some(n as i64),
            Basic::I32(n) => basic_form(value).signed() == Some(n as i64),
            Basic::I64(n) => basic_form(value).signed() == Some(n),
            Basic::Bool(b) => basic_form(value) == JsonView::Bool(b),
            Basic::Str(s) => basic_form(value).text() == Some(s@),
            Basic::Signature(s) => basic_form(value).text() == Some(s@),
            Basic::ObjectPath(s) => basic_form(value).text() == Some(s@),
            Basic::F64(x) => basic_form(value) == JsonView::Float(x.bits) || basic_form(value)
                == JsonView::Null,
        },
        json::plain(basic_form(value)) || value is F64,
{
}

/// A double comes over where it is a number: where not all of the eleven bits of
/// its exponent are set.
pub proof fn law_doubles_that_are_numbers(bits: u64)
    ensures
        finite(bits) <==> (bits >> 52) & 0x7ff != 0x7ff,
{
    assert((bits / 0x10_0000_0000_0000) % 0x800 == (bits >> 52) & 0x7ff) by (bit_vector);
}

/// Arrays and structures become arrays of the same length, each element in its
/// place; a value in a value is unwrapped.
pub proof fn law_arrays_keep_their_elements(items: Vec<Variant>, inner: Box<Variant>, i: int)
    requires
        0 <= i < items@.len(),
    ensures
        json_form(Variant::Array(items)) == json_form(Variant::Structure(items)),
        json_form(Variant::Array(items)) matches JsonView::Array(list) && list.len() == items@.len()
            && list[i] == json_form(items@[i]),
        json_form(Variant::Value(inner)) == json_form(*inner),
{
    lemma_array_form(items@, i);
}

proof fn lemma_array_form(items: Seq<Variant>, i: int)
    requires
        0 <= i < items.len(),
    ensures
        array_form(items).len() == items.len(),
        array_form(items)[i] == json_form(items[i]),
    decreases items.len(),
{
    if items.len() > 1 {
        lemma_array_form(
            items.drop_last(),
            if i < items.len() - 1 {
                i
            } else {
                0
            },
        );
    } else {
        assert(array_form(items.drop_last()) =~= Seq::<JsonView>::empty());
    }
}

/// A dictionary becomes an object with a field for each key, which holds the last
/// value that the key has.
pub proof fn law_dictionaries_keep_their_values(pairs: Vec<(Basic, Variant)>, i: int)
    requires
        0 <= i < pairs@.len(),
        forall|k: int|
            i < k < pairs@.len() ==> field_name((#[trigger] pairs@[k]).0) != field_name(pairs@[i].0),
    ensures
        json_form(Variant::Dict(pairs)).field(field_name(pairs@[i].0)) == Some(
            json_form(pairs@[i].1),
        ),
        forall|name: Text|
            (forall|k: int| 0 <= k < pairs@.len() ==> field_name((#[trigger] pairs@[k]).0) != name)
                ==> #[trigger] json_form(Variant::Dict(pairs)).field(name) is None,
        pairs@[i].0 matches Basic::Str(s) ==> field_name(pairs@[i].0) == s@,
{
    lemma_object_form(pairs@, i);
    assert forall|name: Text|
        (forall|k: int| 0 <= k < pairs@.len() ==> field_name((#[trigger] pairs@[k]).0)
            != name) implies #[trigger] json_form(Variant::Dict(pairs)).field(name) is None by {
        lemma_no_field(pairs@, name);
    }
}

proof fn lemma_object_form(pairs: Seq<(Basic, Variant)>, i: int)
    requires
        0 <= i < pairs.len(),
        forall|k: int|
            i < k < pairs.len() ==> field_name((#[trigger] pairs[k]).0) != field_name(pairs[i].0),
    ensures
        object_form(pairs).contains_key(field_name(pairs[i].0)),
        object_form(pairs)[field_name(pairs[i].0)] == json_form(pairs[i].1),
    decreases pairs.len(),
{
    if i < pairs.len() - 1 {
        let rest = pairs.drop_last();
        assert(pairs.last() == pairs[pairs.len() - 1]);
        assert forall|k: int| i < k < rest.len() implies field_name((#[trigger] rest[k]).0) != field_name(
            rest[i].0,
        ) by {
            assert(rest[k] == pairs[k]);
        }
        lemma_object_form(rest, i);
    }
}

proof fn lemma_no_field(pairs: Seq<(Basic, Variant)>, name: Text)
    requires
        forall|k: int| 0 <= k < pairs.len() ==> field_name((#[trigger] pairs[k]).0) != name,
    ensures
        !object_form(pairs).contains_key(name),
    decreases pairs.len(),
{
    if pairs.len() > 0 {
        let rest = pairs.drop_last();
        assert(pairs.last() == pairs[pairs.len() - 1]);
        assert forall|k: int| 0 <= k < rest.len() implies field_name((#[trigger] rest[k]).0) != name by {
            assert(rest[k] == pairs[k]);
        }
        lemma_no_field(rest, name);
    }
}

/// What is read of a screen capture: the output where the backend names one, how
/// the cursor is shown where it says so, and the backend where it gives its name,
/// in this order and under these labels.
#[verifier::rlimit(50)]
pub proof fn law_what_is_read_of_a_capture(
    vendor: Text,
    version: u64,
    payload: JsonView,
    output: Text,
    cursor: u64,
    issued: u64,
)
    requires
        payload.field("output"@) == Some(JsonView::Str(output)),
        payload.field("withCursor"@) == Some(JsonView::Unsigned(cursor)),
        payload.field("timeIssued"@) == Some(JsonView::Unsigned(issued)),
        issued <= i64::MAX,
    ensures
        ({
            let data = JsonView::Array(
                seq![JsonView::Str(vendor), JsonView::Unsigned(version), payload],
            );
            let details = details_of("screencast"@, data);
            &&& details.len() == 3
            &&& details[0] == ("output"@, output)
            &&& details[1].0 == "cursor"@
            &&& cursor == 1 ==> details[1].1 == "hidden"@
            &&& cursor == 2 ==> details[1].1 == "embedded in the image"@
            &&& cursor == 4 ==> details[1].1 == "as metadata"@
            &&& cursor != 1 && cursor != 2 && cursor != 4 ==> details[1].1 == "non-standard mode"@
            &&& details[2] == ("backend"@, vendor + " (format v"@ + text::dec(version as nat) + ")"@)
            &&& issued_in("screencast"@, data) == Some(issued as i64)
        }),
{
}

/// Whatever else the data of a row is, what it lacks is not made up: without a
/// payload there is no output, no cursor and no time, and the data of any other
/// table is not read.
pub proof fn law_nothing_is_read_into_data(table: Text, data: JsonView)
    ensures
        table != "screencast"@ ==> details_of(table, data).len() == 0 && issued_in(table, data) is None,
        data.element(2) is None ==> issued_in(table, data) is None && details_of(table, data).len()
            <= 1,
        !(data is Array) ==> details_of(table, data).len() == 0 && issued_in(table, data) is None,
{
}

/// The store's tables are kept in the user's data, or where the environment says.
pub proof fn law_where_the_store_is(dir: Seq<u8>, home: Option<Seq<u8>>, own: Seq<u8>)
    requires
        dir.len() > 0,
    ensures
        store_dir(Some(dir), home) == paths::path_join(
            paths::path_join(dir, paths::bytes("flatpak")),
            paths::bytes("db"),
        ),
        store_dir(None, Some(own)) == paths::path_join(
            paths::path_join(
                paths::path_join(
                    paths::path_join(own, paths::bytes(".local")),
                    paths::bytes("share"),
                ),
                paths::bytes("flatpak"),
            ),
            paths::bytes("db"),
        ),
{
}

/// Each detail stands on its own: it is there exactly where the data has it in the
/// right form, whatever else is missing.
#[verifier::rlimit(50)]
pub proof fn law_each_detail_stands_alone(data: JsonView, output: Text, cursor: u64, vendor: Text)
    ensures
        ({
            let details = details_of("screencast"@, data);
            let payload = data.element(2);
            let has_output = payload matches Some(p) && p.field("output"@) matches Some(
                JsonView::Str(_),
            );
            let has_cursor = payload matches Some(p) && p.field("withCursor"@) matches Some(
                JsonView::Unsigned(_),
            );
            let has_vendor = data.element(0) matches Some(JsonView::Str(_));
            &&& details.len() == (if has_output {
                1int
            } else {
                0
            }) + (if has_cursor {
                1int
            } else {
                0
            }) + (if has_vendor {
                1int
            } else {
                0
            })
            &&& payload is Some && (payload->0).field("output"@) == Some(JsonView::Str(output))
                ==> details[0] == ("output"@, output)
            &&& payload is Some && (payload->0).field("withCursor"@) == Some(
                JsonView::Unsigned(cursor),
            ) ==> details[if has_output {
                1int
            } else {
                0
            }] == ("cursor"@, cursor_text(cursor))
            &&& data.element(0) == Some(JsonView::Str(vendor)) && !(data.element(1) matches Some(
                JsonView::Unsigned(_),
            )) ==> details.last() == ("backend"@, vendor)
        }),
{
}

} // verus!
