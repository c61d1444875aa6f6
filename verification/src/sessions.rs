//! Portal sessions that are open right now.
//!
//! A permission says who could; a session says who has one open at this
//! moment. The portal publishes an object for each session, at a path with the
//! bus connection that opened it in it, so nobody needs to have been listening.
use vstd::prelude::*;
use crate::attrib::{Identity, IdentityView};
use crate::order::{self, key_of_text, order_of};
use crate::split::{self, find, swap_char};
use crate::text::{self, chars_of, string_of, Text};

verus! {

/// The path below which the sessions stand.
pub open spec fn root_path() -> Text {
    "/org/freedesktop/portal/desktop/session"@
}

/// The path below which the sessions stand.
pub fn root() -> (r: &'static str)
    ensures
        r@ == root_path(),
{
    "/org/freedesktop/portal/desktop/session"
}

/// An open session.
#[derive(Debug)]
pub struct Session {
    pub path: String,
    /// The unique name of the connection that opened it.
    pub unique_name: String,
    /// The token that the application chose for it.
    pub token: String,
    /// Who is behind it, where the connection still stands.
    pub owner: Option<Identity>,
}

/// An open session as the contracts see it.
pub struct SessionView {
    pub path: Text,
    pub unique_name: Text,
    pub token: Text,
    pub owner: Option<IdentityView>,
}

impl View for Session {
    type V = SessionView;

    open spec fn view(&self) -> SessionView {
        SessionView {
            path: self.path@,
            unique_name: self.unique_name@,
            token: self.token@,
            owner: text::opt(self.owner),
        }
    }
}

impl Clone for Session {
    fn clone(&self) -> (r: Self)
        ensures
            r@ == self@,
    {
        Session {
            path: self.path.clone(),
            unique_name: self.unique_name.clone(),
            token: self.token.clone(),
            owner: match &self.owner {
                Some(owner) => Some(owner.clone()),
                None => None,
            },
        }
    }
}

/// The unique name of the connection that a fragment of a path stands for.
pub open spec fn connection_name(fragment: Text) -> Text {
    ":"@ + split::swapped(fragment, '_', '.')
}

/// The unique name of the connection that a fragment of a path stands for.
pub fn unique_name_from(fragment: &str) -> (r: String)
    ensures
        r@ == connection_name(fragment@),
{
    ":".to_owned().concat(swap_char(fragment, '_', '.').as_str())
}

// ---------------------------------------------------------------------------
// Introspection
// ---------------------------------------------------------------------------
/// What comes before the name of a node.
pub open spec fn opening() -> Text {
    "<node name=\""@
}

/// The parts of a text that follow each occurrence of `mark`, up to the next
/// one. Occurrences do not overlap.
pub open spec fn parts_after(s: Text, mark: Text) -> Seq<Text>
    decreases s.len(),
{
    if mark.len() == 0 || !split::occurs_in(s, mark) {
        Seq::empty()
    } else {
        let at = first_place(s, mark);
        let rest = s.skip(at + mark.len());
        seq![up_to(rest, mark)] + (if at >= 0 && at + mark.len() <= s.len() {
            parts_after(rest, mark)
        } else {
            Seq::empty()
        })
    }
}

/// The first place where `mark` occurs.
pub open spec fn first_place(s: Text, mark: Text) -> int {
    choose|at: int|
        split::occurs_at(s, mark, at) && forall|k: int| 0 <= k < at ==> !split::occurs_at(s, mark, k)
}

/// The part of a text before the first occurrence of `mark`, or all of it.
pub open spec fn up_to(s: Text, mark: Text) -> Text {
    if split::occurs_in(s, mark) {
        s.take(first_place(s, mark))
    } else {
        s
    }
}

/// The name at the start of a part: what comes before the closing quote. It
/// does not count where there is no quote, where it is empty, and where it
/// holds a slash, as the name of the root does.
pub open spec fn node_name(part: Text) -> Option<Text> {
    let name = text::prefix_until(part, |c: char| c == '"');
    if !part.contains('"') || name.len() == 0 || name.contains('/') {
        None
    } else {
        Some(name)
    }
}

/// The names at the start of the parts that have one.
pub open spec fn node_names(parts: Seq<Text>) -> Seq<Text>
    decreases parts.len(),
{
    if parts.len() == 0 {
        Seq::empty()
    } else {
        let before = node_names(parts.drop_last());
        match node_name(parts.last()) {
            Some(name) => before.push(name),
            None => before,
        }
    }
}

/// The names of the child nodes in an introspection document.
pub open spec fn children(xml: Text) -> Seq<Text> {
    node_names(parts_after(xml, opening()))
}

/// Where `mark` occurs first, given that it does not occur before.
proof fn lemma_first_place(s: Text, mark: Text, at: int)
    requires
        split::occurs_at(s, mark, at),
        forall|k: int| 0 <= k < at ==> !split::occurs_at(s, mark, k),
    ensures
        split::occurs_in(s, mark),
        first_place(s, mark) == at,
{
    let place = first_place(s, mark);
    assert(split::occurs_at(s, mark, place));
    if place < at {
        assert(!split::occurs_at(s, mark, place));
    } else if place > at {
        assert(!split::occurs_at(s, mark, at));
    }
}

/// What occurs in the end of a text occurs in the text, so much later.
proof fn lemma_occurs_later(s: Text, mark: Text, from: int, k: int)
    requires
        0 <= from <= s.len(),
        0 <= k,
    ensures
        split::occurs_at(s.skip(from), mark, k) == split::occurs_at(s, mark, from + k),
{
    if k + mark.len() <= s.len() - from {
        assert(s.skip(from).subrange(k, k + mark.len()) =~= s.subrange(
            from + k,
            from + k + mark.len(),
        ));
    }
}

/// The first occurrence at or after `from`, seen from there.
proof fn lemma_first_from(s: Text, mark: Text, from: int, at: int)
    requires
        0 <= from <= at,
        split::occurs_at(s, mark, at),
        forall|k: int| from <= k < at ==> !split::occurs_at(s, mark, k),
    ensures
        split::occurs_in(s.skip(from), mark),
        first_place(s.skip(from), mark) == at - from,
{
    let rest = s.skip(from);
    lemma_occurs_later(s, mark, from, at - from);
    assert forall|k: int| 0 <= k < at - from implies !split::occurs_at(rest, mark, k) by {
        lemma_occurs_later(s, mark, from, k);
        assert(!split::occurs_at(s, mark, from + k));
    }
    lemma_first_place(rest, mark, at - from);
}

/// Nothing occurs at or after `from`, seen from there.
proof fn lemma_none_from(s: Text, mark: Text, from: int)
    requires
        0 <= from <= s.len(),
        forall|k: int| from <= k ==> !split::occurs_at(s, mark, k),
    ensures
        !split::occurs_in(s.skip(from), mark),
{
    assert forall|k: int| !split::occurs_at(s.skip(from), mark, k) by {
        if k >= 0 {
            lemma_occurs_later(s, mark, from, k);
            assert(!split::occurs_at(s, mark, from + k));
        }
    }
}

/// The parts of the end of a text that starts before an occurrence, and of the
/// one that starts after it.
proof fn lemma_parts_step(s: Text, mark: Text, from: int, at: int)
    requires
        mark.len() > 0,
        0 <= from <= at,
        split::occurs_at(s, mark, at),
        forall|k: int| from <= k < at ==> !split::occurs_at(s, mark, k),
    ensures
        parts_after(s.skip(from), mark) == seq![up_to(s.skip(at + mark.len()), mark)]
            + parts_after(s.skip(at + mark.len()), mark),
{
    lemma_first_from(s, mark, from, at);
    assert(s.skip(from).skip(at - from + mark.len()) =~= s.skip(at + mark.len()));
}

/// The names of parts in two lists are those of the one, then those of the
/// other.
proof fn lemma_names_add(a: Seq<Text>, b: Seq<Text>)
    ensures
        node_names(a + b) == node_names(a) + node_names(b),
    decreases b.len(),
{
    if b.len() == 0 {
        assert(a + b =~= a);
        assert(node_names(a) + node_names(b) =~= node_names(a));
    } else {
        lemma_names_add(a, b.drop_last());
        assert((a + b).drop_last() =~= a + b.drop_last());
        assert((a + b).last() == b.last());
        assert(node_names(a + b) =~= node_names(a) + node_names(b));
    }
}

/// The name at the start of the part that stands at `chars[from..to]`.
fn name_at(chars: &Vec<char>, from: usize, to: usize) -> (r: Option<String>)
    requires
        from <= to <= chars@.len(),
    ensures
        text::opt(r) == node_name(chars@.subrange(from as int, to as int)),
{
    let ghost part = chars@.subrange(from as int, to as int);
    let mut end: usize = from;
    let mut slash = false;
    while end < to && chars[end] != '"'
        invariant
            from <= end <= to <= chars@.len(),
            part == chars@.subrange(from as int, to as int),
            forall|k: int| 0 <= k < end - from ==> #[trigger] part[k] != '"',
            slash == part.take(end - from).contains('/'),
        decreases to - end,
    {
        proof {
            let before = part.take(end - from);
            let next = part.take(end - from + 1);
            assert(next =~= before.push(part[end - from]));
            if before.contains('/') {
                let k = choose|k: int| 0 <= k < before.len() && before[k] == '/';
                assert(next[k] == '/');
            }
            assert(next[end - from] == chars@[end as int]);
        }
        if chars[end] == '/' {
            slash = true;
        }
        end = end + 1;
    }
    proof {
        text::lemma_prefix_until(part, |c: char| c == '"', end - from);
        if end < to {
            assert(part[end - from] == '"');
        } else {
            assert(!part.contains('"'));
        }
        assert(part.take(end - from) =~= chars@.subrange(from as int, end as int));
    }
    if end == to || end == from || slash {
        None
    } else {
        Some(string_of(chars, from, end))
    }
}

/// The names of the child nodes that stand at or after a place.
#[verifier::opaque]
spec fn children_from(s: Text, mark: Text, from: int) -> Seq<Text> {
    node_names(parts_after(s.skip(from), mark))
}

/// Nothing stands at or after a place where the mark does not occur any more.
proof fn lemma_no_children(s: Text, mark: Text, from: int)
    requires
        0 <= from <= s.len(),
        forall|k: int| from <= k ==> !split::occurs_at(s, mark, k),
    ensures
        children_from(s, mark, from) == Seq::<Text>::empty(),
{
    reveal(children_from);
    lemma_none_from(s, mark, from);
}

/// Between an occurrence of the mark and the next one stands at most one name.
proof fn lemma_next_child(s: Text, mark: Text, from: int, at: int, follow: Option<usize>)
    requires
        mark.len() > 0,
        0 <= from <= at,
        split::occurs_at(s, mark, at),
        forall|k: int| from <= k < at ==> !split::occurs_at(s, mark, k),
        match follow {
            Some(end) => at + mark.len() <= end && split::occurs_at(s, mark, end as int)
                && forall|k: int| at + mark.len() <= k < end ==> !split::occurs_at(s, mark, k),
            None => forall|k: int| at + mark.len() <= k ==> !split::occurs_at(s, mark, k),
        },
    ensures
        ({
            let start = at + mark.len();
            let end = match follow {
                Some(end) => end as int,
                None => s.len() as int,
            };
            let rest = children_from(s, mark, start);
            children_from(s, mark, from) == match node_name(s.subrange(start, end)) {
                Some(name) => seq![name] + rest,
                None => rest,
            }
        }),
{
    reveal(children_from);
    let start = at + mark.len();
    let part = match follow {
        Some(end) => s.subrange(start, end as int),
        None => s.subrange(start, s.len() as int),
    };
    lemma_parts_step(s, mark, from, at);
    match follow {
        Some(end) => {
            lemma_first_from(s, mark, start, end as int);
        },
        None => {
            lemma_none_from(s, mark, start);
        },
    }
    assert(up_to(s.skip(start), mark) =~= part);
    let rest = parts_after(s.skip(start), mark);
    lemma_names_add(seq![part], rest);
    assert(seq![part].drop_last() =~= Seq::<Text>::empty());
    assert(seq![part].last() == part);
    assert(node_names(Seq::<Text>::empty()) =~= Seq::<Text>::empty());
    match node_name(part) {
        Some(name) => {
            assert(node_names(seq![part]) =~= seq![name]);
        },
        None => {
            assert(node_names(seq![part]) =~= Seq::<Text>::empty());
            assert(Seq::<Text>::empty() + node_names(rest) =~= node_names(rest));
        },
    }
}

/// The names of the child nodes in an introspection document: they stand as
/// `<node name="1_181"/>`, and the root has an absolute path or no name.
pub fn child_nodes(xml: &str) -> (r: Vec<String>)
    ensures
        text::views(r@) == children(xml@),
{
    broadcast use crate::text::group_views;

    let chars = chars_of(xml);
    let mark = chars_of("<node name=\"");
    let n = chars.len();
    let m = mark.len();
    let ghost s = chars@;
    let ghost total = children_from(s, mark@, 0);
    let mut out: Vec<String> = Vec::new();
    let mut from: usize = 0;
    let mut next: Option<usize> = find(&chars, &mark, 0);
    proof {
        reveal_strlit("<node name=\"");
        assert(text::views(out@) + total =~= total);
        assert(total == children(xml@)) by {
            reveal(children_from);
            assert(s.skip(0) =~= s);
        }
    }
    while next.is_some()
        invariant
            s == chars@,
            n == s.len(),
            m == mark@.len(),
            m > 0,
            from <= n,
            match next {
                Some(at) => from <= at && split::occurs_at(s, mark@, at as int) && forall|k: int|
                    from <= k < at ==> !split::occurs_at(s, mark@, k),
                None => forall|k: int| from <= k ==> !split::occurs_at(s, mark@, k),
            },
            total == text::views(out@) + children_from(s, mark@, from as int),
        decreases n - from,
    {
        let at: usize = next.unwrap();
        let start: usize = at + m;
        let follow = find(&chars, &mark, start);
        let end: usize = match follow {
            Some(end) => end,
            None => n,
        };
        let ghost before = text::views(out@);
        proof {
            lemma_next_child(s, mark@, from as int, at as int, follow);
        }
        let found = name_at(&chars, start, end);
        let ghost rest = children_from(s, mark@, start as int);
        if let Some(name) = found {
            proof {
                assert(before + (seq![name@] + rest) =~= before.push(name@) + rest);
            }
            out.push(name);
        }
        from = start;
        next = follow;
    }
    proof {
        lemma_no_children(s, mark@, from as int);
        assert(text::views(out@) + Seq::<Text>::empty() =~= text::views(out@));
    }
    out
}

// ---------------------------------------------------------------------------
// Sessions
// ---------------------------------------------------------------------------
/// The path below which the sessions of a connection stand.
pub open spec fn branch_of(fragment: Text) -> Text {
    root_path() + "/"@ + fragment
}

/// The path below which the sessions of a connection stand.
pub fn branch_path(fragment: &str) -> (r: String)
    ensures
        r@ == branch_of(fragment@),
{
    root().to_owned().concat("/").concat(fragment)
}

/// A character of an element of a bus name.
pub open spec fn name_char(c: char) -> bool {
    48 <= c as u32 <= 57 || 65 <= c as u32 <= 90 || 97 <= c as u32 <= 122 || c == '_' || c == '-'
}

/// A unique name as the bus admits it: a colon, then two elements or more with
/// dots between them, 255 characters at most in all.
pub open spec fn admissible(name: Text) -> bool {
    let elements = split::pieces(name.drop_first(), '.');
    &&& name.len() > 0 && name[0] == ':'
    &&& name.len() <= 255
    &&& elements.len() >= 2
    &&& forall|i: int|
        0 <= i < elements.len() ==> (#[trigger] elements[i]).len() > 0 && forall|k: int|
            0 <= k < elements[i].len() ==> name_char(#[trigger] elements[i][k])
}

/// `zbus::names::BusName::try_from`: a name that begins with a colon is taken
/// where it is a colon and two or more elements of ASCII letters, digits,
/// `_` and `-`, with dots between them, and 255 bytes long at most.
#[verifier::external_body]
fn is_bus_name(name: &str) -> (r: bool)
    requires
        name@.len() > 0 && name@[0] == ':',
    ensures
        r == admissible(name@),
{
    zbus::names::BusName::try_from(name).is_ok()
}

/// The name to ask the bus about to learn who is behind a fragment: none where
/// the bus would not take it.
pub fn owner_name(fragment: &str) -> (r: Option<String>)
    ensures
        match r {
            Some(name) => name@ == connection_name(fragment@) && admissible(name@),
            None => !admissible(connection_name(fragment@)),
        },
{
    let name = unique_name_from(fragment);
    proof {
        reveal_strlit(":");
    }
    if is_bus_name(name.as_str()) {
        Some(name)
    } else {
        None
    }
}

/// What the bus answered about a connection that has sessions.
pub struct Answer {
    pub fragment: String,
    /// The introspection document of its branch: none where the connection was
    /// closed between the two questions.
    pub xml: Option<String>,
    /// Who is behind the connection, as asked for each session in turn.
    pub owners: Vec<Option<Identity>>,
}

/// What the bus answered about a connection, as the contracts see it.
pub struct AnswerView {
    pub fragment: Text,
    pub xml: Option<Text>,
    pub owners: Seq<Option<IdentityView>>,
}

impl View for Answer {
    type V = AnswerView;

    open spec fn view(&self) -> AnswerView {
        AnswerView {
            fragment: self.fragment@,
            xml: text::opt(self.xml),
            owners: Seq::new(self.owners@.len(), |i: int| text::opt(self.owners@[i])),
        }
    }
}

/// A session, from the connection that opened it, its token and its owner.
pub open spec fn session_of(fragment: Text, token: Text, owner: Option<IdentityView>) -> SessionView {
    SessionView {
        path: branch_of(fragment) + "/"@ + token,
        unique_name: connection_name(fragment),
        token,
        owner,
    }
}

/// The sessions of a connection.
pub open spec fn branch_sessions(answer: AnswerView) -> Seq<SessionView> {
    match answer.xml {
        Some(xml) => {
            let tokens = children(xml);
            Seq::new(
                tokens.len(),
                |i: int|
                    session_of(
                        answer.fragment,
                        tokens[i],
                        if i < answer.owners.len() {
                            answer.owners[i]
                        } else {
                            None
                        },
                    ),
            )
        },
        None => Seq::empty(),
    }
}

/// The sessions of all connections, in the order of the answers.
pub open spec fn all_sessions(answers: Seq<AnswerView>) -> Seq<SessionView>
    decreases answers.len(),
{
    if answers.len() == 0 {
        Seq::empty()
    } else {
        all_sessions(answers.drop_last()) + branch_sessions(answers.last())
    }
}

/// What sessions are ordered by: their paths.
pub open spec fn session_keys(list: Seq<SessionView>) -> Seq<Seq<int>> {
    Seq::new(list.len(), |i: int| order::text_key(list[i].path))
}

/// The open sessions, by path.
pub open spec fn open_sessions(answers: Seq<AnswerView>) -> Seq<SessionView> {
    let list = all_sessions(answers);
    order::arranged(list, order::stable_order(session_keys(list)))
}

/// Adds the sessions of a connection to a list.
fn add_sessions(out: &mut Vec<Session>, answer: &Answer)
    ensures
        text::views(final(out)@) == text::views(old(out)@) + branch_sessions(answer@),
{
    broadcast use crate::text::group_views;

    let ghost before = text::views(out@);
    let ghost added = branch_sessions(answer@);
    match &answer.xml {
        Some(xml) => {
            let tokens = child_nodes(xml.as_str());
            let ghost owners = answer@.owners;
            let mut i: usize = 0;
            proof {
                assert(before + added.take(0) =~= before);
                assert forall|k: int| 0 <= k < tokens@.len() implies #[trigger] added[k]
                    == session_of(
                    answer.fragment@,
                    tokens@[k]@,
                    if k < owners.len() {
                        owners[k]
                    } else {
                        None
                    },
                ) by {
                    assert(children(xml@)[k] == tokens@[k]@);
                }
            }
            while i < tokens.len()
                invariant
                    i <= tokens@.len(),
                    owners == answer@.owners,
                    added.len() == tokens@.len(),
                    forall|k: int|
                        0 <= k < tokens@.len() ==> #[trigger] added[k] == session_of(
                            answer.fragment@,
                            tokens@[k]@,
                            if k < owners.len() {
                                owners[k]
                            } else {
                                None
                            },
                        ),
                    text::views(out@) == before + added.take(i as int),
                decreases tokens@.len() - i,
            {
                let owner = if i < answer.owners.len() {
                    match &answer.owners[i] {
                        Some(owner) => Some(owner.clone()),
                        None => None,
                    }
                } else {
                    None
                };
                let session = Session {
                    path: branch_path(answer.fragment.as_str()).concat("/").concat(tokens[i].as_str()),
                    unique_name: unique_name_from(answer.fragment.as_str()),
                    token: tokens[i].clone(),
                    owner,
                };
                proof {
                    assert(session@ == added[i as int]);
                    assert(before + added.take(i + 1) =~= (before + added.take(i as int)).push(
                        session@,
                    ));
                }
                out.push(session);
                i = i + 1;
            }
            proof {
                assert(added.take(i as int) =~= added);
            }
        },
        None => {
            proof {
                assert(before + added =~= before);
            }
        },
    }
}

/// The open sessions, by path, from what the bus answered about each
/// connection that has one.
pub fn live(answers: &Vec<Answer>) -> (r: Vec<Session>)
    ensures
        text::views(r@) == open_sessions(text::views(answers@)),
{
    broadcast use crate::text::group_views;

    let ghost given = text::views(answers@);
    let mut list: Vec<Session> = Vec::new();
    let mut i: usize = 0;
    proof {
        assert(given.take(0) =~= Seq::empty());
    }
    while i < answers.len()
        invariant
            i <= answers@.len(),
            given == text::views(answers@),
            text::views(list@) == all_sessions(given.take(i as int)),
        decreases answers@.len() - i,
    {
        proof {
            assert(given.take(i + 1).drop_last() =~= given.take(i as int));
            assert(given.take(i + 1).last() == answers@[i as int]@);
        }
        add_sessions(&mut list, &answers[i]);
        i = i + 1;
    }
    let ghost all = text::views(list@);
    proof {
        assert(given.take(i as int) =~= given);
    }
    let mut ks: Vec<Vec<i128>> = Vec::new();
    let mut j: usize = 0;
    while j < list.len()
        invariant
            j <= list@.len(),
            all == text::views(list@),
            ks@.len() == j,
            forall|k: int| 0 <= k < j ==> order::key(#[trigger] ks@[k]@) == session_keys(all)[k],
        decreases list@.len() - j,
    {
        ks.push(key_of_text(list[j].path.as_str()));
        j = j + 1;
    }
    proof {
        assert(order::keys(ks@) =~= session_keys(all));
    }
    let places = order_of(&ks);
    let ghost sorted = order::arranged(all, order::stable_order(session_keys(all)));
    let mut out: Vec<Session> = Vec::new();
    let mut k: usize = 0;
    while k < places.len()
        invariant
            k <= places@.len(),
            all == text::views(list@),
            order::positions(places@) == order::stable_order(session_keys(all)),
            order::is_order(session_keys(all), order::positions(places@)),
            sorted == order::arranged(all, order::stable_order(session_keys(all))),
            text::views(out@) == sorted.take(k as int),
        decreases places@.len() - k,
    {
        proof {
            assert(order::positions(places@)[k as int] == places@[k as int]);
            assert(sorted.take(k + 1) =~= sorted.take(k as int).push(
                list@[places@[k as int] as int]@,
            ));
        }
        out.push(list[places[k]].clone());
        k = k + 1;
    }
    proof {
        assert(sorted.take(k as int) =~= sorted);
    }
    out
}

/// The sessions come in the order of their paths, and no session is lost or
/// made up.
pub proof fn law_sessions_come_by_path(answers: Seq<AnswerView>)
    ensures
        forall|s: SessionView| #[trigger]
            open_sessions(answers).contains(s) <==> all_sessions(answers).contains(s),
        forall|i: int, j: int|
            0 <= i < j < open_sessions(answers).len() ==> !order::key_lt(
                order::text_key((#[trigger] open_sessions(answers)[j]).path),
                order::text_key((#[trigger] open_sessions(answers)[i]).path),
            ),
{
    let list = all_sessions(answers);
    let keys = session_keys(list);
    let places = order::stable_order(keys);
    let sorted = open_sessions(answers);
    order::lemma_order_exists(keys);
    order::lemma_arranged(list, keys);
    assert forall|i: int, j: int| 0 <= i < j < sorted.len() implies !order::key_lt(
        order::text_key((#[trigger] sorted[j]).path),
        order::text_key((#[trigger] sorted[i]).path),
    ) by {
        assert(order::belongs_before(keys, places[i], places[j]));
        if order::key_lt(keys[places[j]], keys[places[i]]) {
            if order::key_lt(keys[places[i]], keys[places[j]]) {
                order::lemma_key_transitive(keys[places[i]], keys[places[j]], keys[places[i]]);
            }
            order::lemma_key_irreflexive(keys[places[i]]);
        }
    }
}

/// The sessions of an answer are among all sessions.
proof fn lemma_all_sessions(answers: Seq<AnswerView>, a: int, i: int)
    requires
        0 <= a < answers.len(),
        0 <= i < branch_sessions(answers[a]).len(),
    ensures
        all_sessions(answers).contains(branch_sessions(answers[a])[i]),
    decreases answers.len(),
{
    let before = all_sessions(answers.drop_last());
    let all = all_sessions(answers);
    let wanted = branch_sessions(answers[a])[i];
    if a < answers.len() - 1 {
        lemma_all_sessions(answers.drop_last(), a, i);
        let k = choose|k: int| 0 <= k < before.len() && before[k] == wanted;
        assert(all[k] == wanted);
    } else {
        assert(all[before.len() + i] == wanted);
    }
}

/// Every session that the bus gave is shown: each child node of each answer is
/// among the open sessions, under its path, with the name of the connection that
/// opened it and with the owner that the bus gave for it.
#[verifier::rlimit(50)]
pub proof fn law_every_session_is_shown(answers: Seq<AnswerView>, a: int, i: int)
    requires
        0 <= a < answers.len(),
        answers[a].xml is Some,
        0 <= i < children(answers[a].xml->0).len(),
    ensures
        ({
            let child = children(answers[a].xml->0)[i];
            let fragment = answers[a].fragment;
            open_sessions(answers).contains(
                SessionView {
                    path: "/org/freedesktop/portal/desktop/session"@ + "/"@ + fragment + "/"@ + child,
                    unique_name: ":"@ + Seq::new(
                        fragment.len(),
                        |k: int|
                            if fragment[k] == '_' {
                                '.'
                            } else {
                                fragment[k]
                            },
                    ),
                    token: child,
                    owner: if i < answers[a].owners.len() {
                        answers[a].owners[i]
                    } else {
                        None
                    },
                },
            )
        }),
{
    let child = children(answers[a].xml->0)[i];
    let fragment = answers[a].fragment;
    let name = ":"@ + Seq::new(
        fragment.len(),
        |k: int|
            if fragment[k] == '_' {
                '.'
            } else {
                fragment[k]
            },
    );
    assert(name =~= connection_name(fragment));
    lemma_all_sessions(answers, a, i);
    law_sessions_come_by_path(answers);
}

/// No session is made up: each that is shown is a child node of some answer.
#[verifier::rlimit(50)]
pub proof fn law_no_session_is_made_up(answers: Seq<AnswerView>, s: SessionView)
    requires
        open_sessions(answers).contains(s),
    ensures
        exists|a: int, i: int|
            0 <= a < answers.len() && answers[a].xml is Some && 0 <= i < children(
                answers[a].xml->0,
            ).len() && s.token == #[trigger] children(answers[a].xml->0)[i] && s.path
                == "/org/freedesktop/portal/desktop/session"@ + "/"@ + answers[a].fragment + "/"@
                + s.token && s.unique_name == connection_name(answers[a].fragment) && s.owner == (
            if i < answers[a].owners.len() {
                answers[a].owners[i]
            } else {
                None
            }),
{
    law_sessions_come_by_path(answers);
    let (a, i) = lemma_from_an_answer(answers, s);
    assert(children(answers[a].xml->0)[i] == s.token);
}

/// Each of all sessions comes from an answer.
proof fn lemma_from_an_answer(answers: Seq<AnswerView>, s: SessionView) -> (found: (int, int))
    requires
        all_sessions(answers).contains(s),
    ensures
        0 <= found.0 < answers.len(),
        0 <= found.1 < branch_sessions(answers[found.0]).len(),
        branch_sessions(answers[found.0])[found.1] == s,
    decreases answers.len(),
{
    let all = all_sessions(answers);
    let k = choose|k: int| 0 <= k < all.len() && all[k] == s;
    let before = all_sessions(answers.drop_last());
    if k < before.len() {
        assert(before[k] == s);
        lemma_from_an_answer(answers.drop_last(), s)
    } else {
        (answers.len() - 1, k - before.len())
    }
}

/// One answer more adds as many sessions as its document has child nodes; one
/// without a document adds none.
pub proof fn law_sessions_add_up(answers: Seq<AnswerView>, more: AnswerView)
    ensures
        open_sessions(Seq::empty()).len() == 0,
        open_sessions(answers.push(more)).len() == open_sessions(answers).len() + match more.xml {
            Some(xml) => children(xml).len(),
            None => 0,
        },
{
    let list = all_sessions(answers);
    let longer = all_sessions(answers.push(more));
    let none = all_sessions(Seq::empty());
    order::lemma_arranged(list, session_keys(list));
    order::lemma_arranged(longer, session_keys(longer));
    order::lemma_arranged(none, session_keys(none));
    assert(answers.push(more).drop_last() =~= answers);
}

/// The sessions are in the order of their paths: by the first character in which
/// two of them differ, a path before those that it begins.
pub proof fn law_sessions_are_in_order(answers: Seq<AnswerView>, i: int, j: int, n: int)
    requires
        0 <= i < j < open_sessions(answers).len(),
        0 <= n < open_sessions(answers)[j].path.len(),
        n <= open_sessions(answers)[i].path.len(),
        open_sessions(answers)[i].path.take(n) == open_sessions(answers)[j].path.take(n),
    ensures
        n == open_sessions(answers)[i].path.len() || open_sessions(answers)[i].path[n] as u32
            <= open_sessions(answers)[j].path[n] as u32,
{
    let a = open_sessions(answers)[i].path;
    let b = open_sessions(answers)[j].path;
    law_sessions_come_by_path(answers);
    assert(!order::key_lt(order::text_key(b), order::text_key(a)));
    if n < a.len() && (b[n] as u32) < (a[n] as u32) {
        order::law_first_difference_decides(b, a, n);
    }
}

// ---------------------------------------------------------------------------
// What is read of a document
// ---------------------------------------------------------------------------
/// A document without the beginning of a node has no child nodes.
pub proof fn law_no_nodes_no_children(xml: Text)
    requires
        !split::occurs_in(xml, "<node name=\""@),
    ensures
        children(xml) == Seq::<Text>::empty(),
{
}

/// A node gives its name, and the rest of the document is read on its own: where
/// `before` holds no node, a node with a name gives that name, and the names in
/// what follows come after it. A node whose name is empty or a path gives none.
#[verifier::rlimit(50)]
pub proof fn law_each_node_gives_its_name(before: Text, name: Text, after: Text)
    requires
        !before.contains('<'),
        !name.contains('<'),
        !name.contains('"'),
    ensures
        ({
            let xml = before + "<node name=\""@ + name + "\""@ + after;
            children(xml) == if name.len() > 0 && !name.contains('/') {
                seq![name] + children(after)
            } else {
                children(after)
            }
        }),
{
    let mark = "<node name=\""@;
    reveal_strlit("<node name=\"");
    reveal_strlit("\"");
    assert(mark.len() == 12);
    assert(mark[0] == '<');
    assert("\""@ =~= seq!['"']);
    let xml = before + mark + name + "\""@ + after;
    assert(xml =~= before + mark + (name.push('"') + after));
    lemma_first_node(mark, before, name, after);
}

/// The parts of a text whose first mark stands behind `before`.
#[verifier::rlimit(50)]
proof fn lemma_first_node(mark: Text, before: Text, name: Text, after: Text)
    requires
        mark.len() > 0,
        mark[0] == '<',
        !before.contains('<'),
        !name.contains('<'),
        !name.contains('"'),
    ensures
        ({
            let xml = before + mark + (name.push('"') + after);
            node_names(parts_after(xml, mark)) == if name.len() > 0 && !name.contains('/') {
                seq![name] + node_names(parts_after(after, mark))
            } else {
                node_names(parts_after(after, mark))
            }
        }),
{
    let rest = name.push('"') + after;
    lemma_parts_of(mark, before, rest);
    lemma_named_part(mark, name, after);
    lemma_names_of_one(up_to(rest, mark), parts_after(after, mark));
}

/// Where the first mark stands, behind a text without its first character.
proof fn lemma_mark_behind(mark: Text, before: Text, rest: Text)
    requires
        mark.len() > 0,
        !before.contains(mark[0]),
    ensures
        ({
            let xml = before + mark + rest;
            let at = before.len() as int;
            &&& split::occurs_at(xml, mark, at)
            &&& forall|k: int| 0 <= k < at ==> !split::occurs_at(xml, mark, k)
            &&& xml.skip(0) == xml
            &&& xml.skip(at + mark.len()) == rest
        }),
{
    let xml = before + mark + rest;
    let at = before.len() as int;
    assert(xml.subrange(at, at + mark.len()) =~= mark);
    assert forall|k: int| 0 <= k < at implies !split::occurs_at(xml, mark, k) by {
        if split::occurs_at(xml, mark, k) {
            assert(xml.subrange(k, k + mark.len())[0] == xml[k]);
            assert(before.contains(before[k]));
        }
    }
    assert(xml.skip(0) =~= xml);
    assert(xml.skip(at + mark.len()) =~= rest);
}

/// The parts of a text whose first mark stands behind `before`.
#[verifier::rlimit(50)]
proof fn lemma_parts_of(mark: Text, before: Text, rest: Text)
    requires
        mark.len() > 0,
        !before.contains(mark[0]),
    ensures
        parts_after(before + mark + rest, mark) == seq![up_to(rest, mark)] + parts_after(rest, mark),
{
    lemma_mark_behind(mark, before, rest);
    lemma_parts_step(before + mark + rest, mark, 0, before.len() as int);
}

/// The part behind a mark that begins with a name, and what is behind that name.
#[verifier::rlimit(50)]
proof fn lemma_named_part(mark: Text, name: Text, after: Text)
    requires
        mark.len() > 0,
        mark[0] == '<',
        !name.contains('<'),
        !name.contains('"'),
    ensures
        parts_after(name.push('"') + after, mark) == parts_after(after, mark),
        node_name(up_to(name.push('"') + after, mark)) == if name.len() > 0 && !name.contains('/') {
            Some(name)
        } else {
            None
        },
{
    let rest = name.push('"') + after;
    let behind = (name.len() + 1) as int;
    assert(rest.skip(behind) =~= after);
    assert forall|k: int| 0 <= k < behind implies rest[k] != mark[0] by {
        if k < name.len() {
            assert(name.contains(name[k]));
        }
    }
    lemma_parts_behind(rest, mark, behind);
    lemma_part(rest, mark, behind);
    assert(rest.take(behind) =~= name.push('"'));
    lemma_name_of_part(up_to(rest, mark), name);
}

/// The names in a part and in those behind it.
#[verifier::rlimit(50)]
proof fn lemma_names_of_one(part: Text, rest: Seq<Text>)
    ensures
        node_names(seq![part] + rest) == match node_name(part) {
            Some(name) => seq![name] + node_names(rest),
            None => node_names(rest),
        },
{
    lemma_names_add(seq![part], rest);
    assert(seq![part].drop_last() =~= Seq::<Text>::empty());
    assert(seq![part].last() == part);
    assert(node_names(Seq::<Text>::empty()) =~= Seq::<Text>::empty());
    match node_name(part) {
        Some(name) => {
            assert(node_names(seq![part]) =~= seq![name]);
        },
        None => {
            assert(node_names(seq![part]) =~= Seq::<Text>::empty());
            assert(Seq::<Text>::empty() + node_names(rest) =~= node_names(rest));
        },
    }
}

/// The name of a part that begins with one and its closing quote.
proof fn lemma_name_of_part(part: Text, name: Text)
    requires
        part.len() > name.len(),
        part.take((name.len() + 1) as int) == name.push('"'),
        !name.contains('"'),
    ensures
        node_name(part) == if name.len() > 0 && !name.contains('/') {
            Some(name)
        } else {
            None
        },
{
    let n = name.len() as int;
    let head = part.take(n + 1);
    assert(head =~= name.push('"'));
    assert forall|k: int| 0 <= k < n implies part[k] == name[k] && part[k] != '"' by {
        assert(head[k] == part[k]);
        assert(name.contains(name[k]));
    }
    assert(head[n] == part[n]);
    text::lemma_prefix_until(part, |c: char| c == '"', n);
    assert(part.take(n) =~= name);
    assert(part.contains(part[n]));
}

/// Where the mark's first character does not occur before a place, what follows
/// the place has the same parts.
proof fn lemma_parts_behind(s: Text, mark: Text, from: int)
    requires
        mark.len() > 0,
        0 <= from <= s.len(),
        forall|k: int| 0 <= k < from ==> s[k] != mark[0],
    ensures
        parts_after(s, mark) == parts_after(s.skip(from), mark),
{
    let rest = s.skip(from);
    assert forall|k: int| 0 <= k < from implies !split::occurs_at(s, mark, k) by {
        if split::occurs_at(s, mark, k) {
            assert(s.subrange(k, k + mark.len())[0] == s[k]);
        }
    }
    assert(s.skip(0) =~= s);
    if split::occurs_in(s, mark) {
        let at = lemma_least(s, mark);
        lemma_parts_step(s, mark, 0, at);
        lemma_parts_step(s, mark, from, at);
    } else {
        assert forall|k: int| from <= k implies !split::occurs_at(s, mark, k) by {}
        lemma_none_from(s, mark, from);
    }
}

/// The part before the first occurrence reaches beyond a place before which the
/// mark's first character does not occur.
proof fn lemma_part(s: Text, mark: Text, from: int)
    requires
        mark.len() > 0,
        0 <= from <= s.len(),
        forall|k: int| 0 <= k < from ==> s[k] != mark[0],
    ensures
        from <= up_to(s, mark).len() <= s.len(),
        up_to(s, mark).take(from) == s.take(from),
{
    if split::occurs_in(s, mark) {
        let at = lemma_least(s, mark);
        lemma_first_place(s, mark, at);
        assert(s.subrange(at, at + mark.len())[0] == s[at]);
    }
    assert(up_to(s, mark).take(from) =~= s.take(from));
}

/// The first place where a mark occurs.
proof fn lemma_least(s: Text, mark: Text) -> (at: int)
    requires
        split::occurs_in(s, mark),
    ensures
        split::occurs_at(s, mark, at),
        forall|k: int| 0 <= k < at ==> !split::occurs_at(s, mark, k),
{
    let some = choose|at: int| split::occurs_at(s, mark, at);
    lemma_least_below(s, mark, some)
}

proof fn lemma_least_below(s: Text, mark: Text, some: int) -> (at: int)
    requires
        split::occurs_at(s, mark, some),
    ensures
        split::occurs_at(s, mark, at),
        forall|k: int| 0 <= k < at ==> !split::occurs_at(s, mark, k),
    decreases some,
{
    if exists|k: int| 0 <= k < some && split::occurs_at(s, mark, k) {
        let k = choose|k: int| 0 <= k < some && split::occurs_at(s, mark, k);
        lemma_least_below(s, mark, k)
    } else {
        some
    }
}

/// The names that the bus gives out, which are a colon and two numbers with a dot
/// between them, may be asked about.
pub proof fn law_names_of_the_bus_may_be_asked_about(a: Text, b: Text)
    requires
        a.len() > 0,
        b.len() > 0,
        a.len() + b.len() <= 253,
        forall|k: int| 0 <= k < a.len() ==> 48 <= (#[trigger] a[k]) as u32 <= 57,
        forall|k: int| 0 <= k < b.len() ==> 48 <= (#[trigger] b[k]) as u32 <= 57,
    ensures
        admissible(":"@ + (a.push('.') + b)),
        !admissible(":"@ + a),
        connection_name(a.push('_') + b) == ":"@ + (a.push('.') + b),
{
    reveal_strlit(":");
    assert(":"@ =~= seq![':']);
    let name = ":"@ + (a.push('.') + b);
    assert forall|k: int| 0 <= k < a.len() implies a[k] != '.' && a[k] != '_' by {
        assert(48 <= a[k] as u32 <= 57);
    }
    assert forall|k: int| 0 <= k < b.len() implies b[k] != '.' && b[k] != '_' by {
        assert(48 <= b[k] as u32 <= 57);
    }
    split::lemma_pieces_after(a, b, '.');
    split::lemma_one_piece(b, '.');
    split::lemma_one_piece(a, '.');
    assert(name.drop_first() =~= a.push('.') + b);
    assert((":"@ + a).drop_first() =~= a);
    let elements = split::pieces(name.drop_first(), '.');
    assert(elements =~= seq![a, b]);
    assert(connection_name(a.push('_') + b) =~= name);
}

} // verus!
