//! Stable ordering by keys.
//!
//! A sort key is a sequence of whole numbers, and keys are compared as words
//! in a dictionary are: by their first difference, a key before its
//! extensions. Numbers, descending numbers, texts and combinations of these
//! are all keys of this kind.
use vstd::prelude::*;
use crate::text::{self, chars_of, Text};

verus! {

// ---------------------------------------------------------------------------
// Keys
// ---------------------------------------------------------------------------
/// The dictionary order of keys.
pub open spec fn key_lt(a: Seq<int>, b: Seq<int>) -> bool
    decreases a.len(),
{
    if b.len() == 0 {
        false
    } else if a.len() == 0 {
        true
    } else if a[0] != b[0] {
        a[0] < b[0]
    } else {
        key_lt(a.drop_first(), b.drop_first())
    }
}

/// No key comes before itself.
pub proof fn lemma_key_irreflexive(a: Seq<int>)
    ensures
        !key_lt(a, a),
    decreases a.len(),
{
    if a.len() > 0 {
        lemma_key_irreflexive(a.drop_first());
    }
}

/// The order of keys is transitive.
pub proof fn lemma_key_transitive(a: Seq<int>, b: Seq<int>, c: Seq<int>)
    requires
        key_lt(a, b),
        key_lt(b, c),
    ensures
        key_lt(a, c),
    decreases a.len(),
{
    if a.len() > 0 && a[0] == b[0] && b[0] == c[0] {
        lemma_key_transitive(a.drop_first(), b.drop_first(), c.drop_first());
    }
}

/// Of two different keys one comes before the other.
pub proof fn lemma_key_total(a: Seq<int>, b: Seq<int>)
    ensures
        key_lt(a, b) || key_lt(b, a) || a == b,
    decreases a.len(),
{
    if a.len() == 0 || b.len() == 0 {
        if a.len() == b.len() {
            assert(a =~= b);
        }
    } else if a[0] == b[0] {
        lemma_key_total(a.drop_first(), b.drop_first());
        if a.drop_first() == b.drop_first() {
            assert(a =~= seq![a[0]] + a.drop_first());
            assert(b =~= seq![b[0]] + b.drop_first());
        }
    }
}

/// The key that a list of machine integers stands for.
pub open spec fn key(k: Seq<i128>) -> Seq<int> {
    Seq::new(k.len(), |i: int| k[i] as int)
}

/// The keys of a list.
pub open spec fn keys(list: Seq<Vec<i128>>) -> Seq<Seq<int>> {
    Seq::new(list.len(), |i: int| key(list[i]@))
}

/// Whether one key comes before another.
fn key_before(a: &Vec<i128>, b: &Vec<i128>) -> (r: bool)
    ensures
        r == key_lt(key(a@), key(b@)),
{
    let n = a.len();
    let m = b.len();
    let mut i: usize = 0;
    proof {
        assert(key(a@).skip(0) =~= key(a@));
        assert(key(b@).skip(0) =~= key(b@));
    }
    while i < n && i < m
        invariant
            n == a@.len(),
            m == b@.len(),
            i <= n,
            i <= m,
            key_lt(key(a@), key(b@)) == key_lt(key(a@).skip(i as int), key(b@).skip(i as int)),
        decreases n - i,
    {
        proof {
            assert(key(a@).skip(i as int)[0] == a@[i as int]);
            assert(key(b@).skip(i as int)[0] == b@[i as int]);
            assert(key(a@).skip(i as int).drop_first() =~= key(a@).skip(i + 1));
            assert(key(b@).skip(i as int).drop_first() =~= key(b@).skip(i + 1));
        }
        if a[i] != b[i] {
            return a[i] < b[i];
        }
        i = i + 1;
    }
    i < m
}

// ---------------------------------------------------------------------------
// Orders
// ---------------------------------------------------------------------------
/// The item at position `i` belongs before the one at position `j`: by its
/// key, and where the keys are equal, by its position.
pub open spec fn belongs_before(keys: Seq<Seq<int>>, i: int, j: int) -> bool {
    key_lt(keys[i], keys[j]) || (keys[i] == keys[j] && i < j)
}

/// `order` lists every position once, each before those it belongs before.
pub open spec fn is_order(keys: Seq<Seq<int>>, order: Seq<int>) -> bool {
    &&& order.len() == keys.len()
    &&& forall|k: int| 0 <= k < order.len() ==> 0 <= #[trigger] order[k] < keys.len()
    &&& forall|i: int, j: int|
        0 <= i < j < order.len() ==> belongs_before(keys, #[trigger] order[i], #[trigger] order[j])
    &&& forall|v: int| 0 <= v < keys.len() ==> #[trigger] order.contains(v)
}

/// The stable order of a list of keys.
pub open spec fn stable_order(keys: Seq<Seq<int>>) -> Seq<int> {
    choose|order: Seq<int>| is_order(keys, order)
}

/// Items taken in a given order.
pub open spec fn arranged<A>(items: Seq<A>, order: Seq<int>) -> Seq<A> {
    Seq::new(order.len(), |k: int| items[order[k]])
}

/// No position belongs before itself, and of two positions only one belongs
/// before the other.
proof fn lemma_belongs_asymmetric(keys: Seq<Seq<int>>, i: int, j: int)
    requires
        belongs_before(keys, i, j),
    ensures
        !belongs_before(keys, j, i),
        i != j,
{
    lemma_key_irreflexive(keys[i]);
    if key_lt(keys[i], keys[j]) && key_lt(keys[j], keys[i]) {
        lemma_key_transitive(keys[i], keys[j], keys[i]);
    }
}

/// No position comes twice in an order.
pub proof fn lemma_order_distinct(keys: Seq<Seq<int>>, order: Seq<int>, i: int, j: int)
    requires
        is_order(keys, order),
        0 <= i < order.len(),
        0 <= j < order.len(),
        order[i] == order[j],
    ensures
        i == j,
{
    if i < j {
        lemma_belongs_asymmetric(keys, order[i], order[j]);
    } else if j < i {
        lemma_belongs_asymmetric(keys, order[j], order[i]);
    }
}

/// A list of keys has one stable order and no other.
pub proof fn lemma_order_unique(keys: Seq<Seq<int>>, a: Seq<int>, b: Seq<int>)
    requires
        is_order(keys, a),
        is_order(keys, b),
    ensures
        a == b,
{
    lemma_order_prefix(keys, a, b, keys.len() as int);
    assert(a.take(keys.len() as int) =~= a);
    assert(b.take(keys.len() as int) =~= b);
}

proof fn lemma_order_prefix(keys: Seq<Seq<int>>, a: Seq<int>, b: Seq<int>, n: int)
    requires
        is_order(keys, a),
        is_order(keys, b),
        0 <= n <= keys.len(),
    ensures
        a.take(n) == b.take(n),
    decreases n,
{
    if n > 0 {
        let k = n - 1;
        lemma_order_prefix(keys, a, b, k);
        if a[k] != b[k] {
            lemma_order_step(keys, a, b, k);
            lemma_order_step(keys, b, a, k);
            lemma_belongs_asymmetric(keys, a[k], b[k]);
        }
        assert(a.take(n) =~= a.take(k).push(a[k]));
        assert(b.take(n) =~= b.take(k).push(b[k]));
    } else {
        assert(a.take(0) =~= b.take(0));
    }
}

/// Two orders that agree before `k` and differ there: what the one has at
/// `k`, the other has later.
proof fn lemma_order_step(keys: Seq<Seq<int>>, a: Seq<int>, b: Seq<int>, k: int)
    requires
        is_order(keys, a),
        is_order(keys, b),
        0 <= k < keys.len(),
        a.take(k) == b.take(k),
        a[k] != b[k],
    ensures
        belongs_before(keys, b[k], a[k]),
{
    assert(b.contains(a[k]));
    let j = choose|j: int| 0 <= j < b.len() && b[j] == a[k];
    if j < k {
        assert(a.take(k)[j] == a[j]);
        assert(b.take(k)[j] == b[j]);
        assert(a[j] == a[k]);
        assert(belongs_before(keys, a[j], a[k]));
        lemma_belongs_asymmetric(keys, a[j], a[k]);
    }
    assert(belongs_before(keys, b[k], b[j]));
}

/// Positions as whole numbers.
pub open spec fn positions(order: Seq<usize>) -> Seq<int> {
    Seq::new(order.len(), |k: int| order[k] as int)
}

/// The stable order of a list of keys.
pub fn order_of(list: &Vec<Vec<i128>>) -> (order: Vec<usize>)
    ensures
        positions(order@) == stable_order(keys(list@)),
        is_order(keys(list@), positions(order@)),
{
    let n = list.len();
    let mut order: Vec<usize> = Vec::new();
    let mut i: usize = 0;
    let ghost all = keys(list@);
    while i < n
        invariant
            i <= n,
            n == list@.len(),
            all == keys(list@),
            is_order(all.take(i as int), positions(order@)),
        decreases n - i,
    {
        let ghost before = positions(order@);
        let ghost part = all.take(i as int);
        let mut p: usize = order.len();
        proof {
            assert forall|q: int| 0 <= q < i implies #[trigger] order@[q] < i by {
                assert(before[q] == order@[q]);
            }
        }
        while p > 0 && key_before(&list[i], &list[order[p - 1]])
            invariant
                p <= order@.len(),
                order@.len() == i,
                i < n,
                n == list@.len(),
                all == keys(list@),
                before == positions(order@),
                part == all.take(i as int),
                is_order(part, before),
                forall|q: int| 0 <= q < i ==> #[trigger] order@[q] < i,
                forall|q: int| p <= q < i ==> key_lt(all[i as int], all[#[trigger] before[q]]),
            decreases p,
        {
            proof {
                assert(before[p - 1] == order@[p - 1]);
            }
            p = p - 1;
        }
        proof {
            if p > 0 {
                assert(before[p - 1] == order@[p - 1]);
                assert(!key_lt(all[i as int], all[before[p - 1]]));
            }
        }
        order.insert(p, i);
        proof {
            lemma_inserted(all, before, i as int, p as int);
            assert(positions(order@) =~= before.insert(p as int, i as int));
        }
        i = i + 1;
    }
    proof {
        assert(all.take(n as int) =~= all);
        lemma_order_unique(all, positions(order@), stable_order(all));
    }
    order
}

/// Inserting the next position after those that do not belong behind it
/// keeps an order.
proof fn lemma_inserted(all: Seq<Seq<int>>, before: Seq<int>, i: int, p: int)
    requires
        0 <= i < all.len(),
        is_order(all.take(i), before),
        0 <= p <= i,
        forall|q: int| p <= q < i ==> key_lt(all[i], all[#[trigger] before[q]]),
        p > 0 ==> !key_lt(all[i], all[before[p - 1]]),
    ensures
        is_order(all.take(i + 1), before.insert(p, i)),
{
    let part = all.take(i);
    let next = all.take(i + 1);
    let after = before.insert(p, i);
    assert forall|a: int, b: int| 0 <= a < b < after.len() implies belongs_before(
        next,
        #[trigger] after[a],
        #[trigger] after[b],
    ) by {
        if a == p {
            assert(after[b] == before[b - 1]);
            assert(next[i] == all[i]);
            assert(next[after[b]] == all[before[b - 1]]);
        } else if b == p {
            assert(after[a] == before[a]);
            lemma_key_total(all[i], all[before[p - 1]]);
            assert(next[before[a]] == all[before[a]]);
            if a < p - 1 {
                assert(belongs_before(part, before[a], before[p - 1]));
                assert(part[before[a]] == all[before[a]]);
                assert(part[before[p - 1]] == all[before[p - 1]]);
                if key_lt(all[before[a]], all[before[p - 1]]) && key_lt(all[before[p - 1]], all[i]) {
                    lemma_key_transitive(all[before[a]], all[before[p - 1]], all[i]);
                }
            }
        } else {
            let a0 = if a < p { a } else { a - 1 };
            let b0 = if b < p { b } else { b - 1 };
            assert(after[a] == before[a0]);
            assert(after[b] == before[b0]);
            assert(belongs_before(part, before[a0], before[b0]));
            assert(part[before[a0]] == next[before[a0]]);
            assert(part[before[b0]] == next[before[b0]]);
        }
    }
    assert forall|k: int| 0 <= k < after.len() implies 0 <= #[trigger] after[k] < next.len() by {
        if k < p {
            assert(after[k] == before[k]);
        } else if k > p {
            assert(after[k] == before[k - 1]);
        }
    }
    assert forall|v: int| 0 <= v < next.len() implies #[trigger] after.contains(v) by {
        if v == i {
            assert(after[p] == i);
        } else {
            assert(before.contains(v));
            let k = choose|k: int| 0 <= k < before.len() && before[k] == v;
            if k < p {
                assert(after[k] == v);
            } else {
                assert(after[k + 1] == v);
            }
        }
    }
}

/// Where position `i` goes among those before it: behind all that it does not
/// belong before.
spec fn slot(all: Seq<Seq<int>>, before: Seq<int>, i: int, p: int) -> int
    decreases p,
{
    if p > 0 && key_lt(all[i], all[before[p - 1]]) {
        slot(all, before, i, p - 1)
    } else {
        p
    }
}

proof fn lemma_slot(all: Seq<Seq<int>>, before: Seq<int>, i: int, p: int)
    requires
        0 <= p <= before.len(),
        forall|q: int| p <= q < before.len() ==> key_lt(all[i], all[#[trigger] before[q]]),
    ensures
        0 <= slot(all, before, i, p) <= p,
        forall|q: int|
            slot(all, before, i, p) <= q < before.len() ==> key_lt(all[i], all[#[trigger] before[q]]),
        slot(all, before, i, p) > 0 ==> !key_lt(all[i], all[before[slot(all, before, i, p) - 1]]),
    decreases p,
{
    if p > 0 && key_lt(all[i], all[before[p - 1]]) {
        lemma_slot(all, before, i, p - 1);
    }
}

proof fn lemma_order_of_part(all: Seq<Seq<int>>, n: int) -> (order: Seq<int>)
    requires
        0 <= n <= all.len(),
    ensures
        is_order(all.take(n), order),
    decreases n,
{
    if n == 0 {
        Seq::empty()
    } else {
        let before = lemma_order_of_part(all, n - 1);
        lemma_slot(all, before, n - 1, n - 1);
        let p = slot(all, before, n - 1, n - 1);
        lemma_inserted(all, before, n - 1, p);
        before.insert(p, n - 1)
    }
}

/// Every list of keys has a stable order.
pub proof fn lemma_order_exists(keys: Seq<Seq<int>>)
    ensures
        is_order(keys, stable_order(keys)),
{
    let order = lemma_order_of_part(keys, keys.len() as int);
    assert(keys.take(keys.len() as int) =~= keys);
    assert(is_order(keys, order));
}

/// Items taken in their stable order are the same items.
pub proof fn lemma_arranged<A>(items: Seq<A>, keys: Seq<Seq<int>>)
    requires
        items.len() == keys.len(),
    ensures
        arranged(items, stable_order(keys)).len() == items.len(),
        forall|x: A| #[trigger] arranged(items, stable_order(keys)).contains(x) <==> items.contains(x),
{
    lemma_order_exists(keys);
    let order = stable_order(keys);
    let sorted = arranged(items, order);
    assert forall|x: A| #[trigger] sorted.contains(x) <==> items.contains(x) by {
        if sorted.contains(x) {
            let k = choose|k: int| 0 <= k < sorted.len() && sorted[k] == x;
            assert(items[order[k]] == x);
        }
        if items.contains(x) {
            let v = choose|v: int| 0 <= v < items.len() && items[v] == x;
            assert(order.contains(v));
            let k = choose|k: int| 0 <= k < order.len() && order[k] == v;
            assert(sorted[k] == x);
        }
    }
}

// ---------------------------------------------------------------------------
// Texts
// ---------------------------------------------------------------------------
/// The key by which texts are ordered: their characters' code points.
pub open spec fn text_key(s: Text) -> Seq<int> {
    Seq::new(s.len(), |i: int| s[i] as u32 as int)
}

/// The keys of a list of texts.
pub open spec fn text_keys(list: Seq<Text>) -> Seq<Seq<int>> {
    Seq::new(list.len(), |i: int| text_key(list[i]))
}

/// A list of texts in alphabetical order.
pub open spec fn sorted_texts(list: Seq<Text>) -> Seq<Text> {
    arranged(list, stable_order(text_keys(list)))
}

/// Texts with the same key are the same.
pub proof fn lemma_text_key_injective(a: Text, b: Text)
    requires
        text_key(a) == text_key(b),
    ensures
        a == b,
{
    assert(a.len() == text_key(a).len());
    assert(b.len() == text_key(b).len());
    assert forall|i: int| 0 <= i < a.len() implies a[i] == b[i] by {
        assert(text_key(a)[i] == a[i] as u32 as int);
        assert(text_key(b)[i] == b[i] as u32 as int);
        vstd::utf8::char_u32_cast(a[i], a[i] as u32);
        vstd::utf8::char_u32_cast(b[i], b[i] as u32);
    }
    assert(a =~= b);
}

/// A list of texts in strictly alphabetical order.
pub open spec fn alphabetical(list: Seq<Text>) -> bool {
    forall|i: int, j: int|
        0 <= i < j < list.len() ==> key_lt(text_key(#[trigger] list[i]), text_key(#[trigger] list[j]))
}

/// Two alphabetical lists of the same texts are the same list.
pub proof fn lemma_alphabetical_unique(a: Seq<Text>, b: Seq<Text>)
    requires
        alphabetical(a),
        alphabetical(b),
        forall|t: Text| #[trigger] a.contains(t) <==> b.contains(t),
    ensures
        a == b,
{
    lemma_alphabetical_prefix(a, b, a.len() as int);
    lemma_alphabetical_prefix(b, a, b.len() as int);
    assert(a =~= b);
}

proof fn lemma_alphabetical_prefix(a: Seq<Text>, b: Seq<Text>, n: int)
    requires
        alphabetical(a),
        alphabetical(b),
        forall|t: Text| #[trigger] a.contains(t) <==> b.contains(t),
        0 <= n <= a.len(),
    ensures
        n <= b.len(),
        forall|k: int| 0 <= k < n ==> a[k] == b[k],
    decreases n,
{
    if n > 0 {
        let k = n - 1;
        lemma_alphabetical_prefix(a, b, k);
        assert(a.contains(a[k]));
        let j = choose|j: int| 0 <= j < b.len() && b[j] == a[k];
        if j < k {
            assert(a[j] == a[k]);
            lemma_key_irreflexive(text_key(a[k]));
        }
        if j > k {
            assert(b.contains(b[k]));
            assert(a.contains(b[k]));
            let i = choose|i: int| 0 <= i < a.len() && a[i] == b[k];
            if i < k {
                assert(b[i] == b[k]);
                lemma_key_irreflexive(text_key(b[k]));
            }
            if i > k {
                lemma_key_transitive(text_key(a[k]), text_key(a[i]), text_key(b[j]));
                lemma_key_irreflexive(text_key(a[k]));
            }
        }
    }
}

/// Sorting a list without repetition gives its texts in alphabetical order.
pub proof fn lemma_sorted_texts(list: Seq<Text>)
    requires
        list.no_duplicates(),
    ensures
        alphabetical(sorted_texts(list)),
        forall|t: Text| #[trigger] sorted_texts(list).contains(t) <==> list.contains(t),
{
    let order = stable_order(text_keys(list));
    lemma_order_exists(text_keys(list));
    let sorted = sorted_texts(list);
    assert forall|i: int, j: int| 0 <= i < j < sorted.len() implies key_lt(
        text_key(#[trigger] sorted[i]),
        text_key(#[trigger] sorted[j]),
    ) by {
        assert(belongs_before(text_keys(list), order[i], order[j]));
        if text_key(list[order[i]]) == text_key(list[order[j]]) {
            lemma_text_key_injective(list[order[i]], list[order[j]]);
            lemma_belongs_asymmetric(text_keys(list), order[i], order[j]);
        }
    }
    lemma_arranged(list, text_keys(list));
}

/// Appends the code points of a text to a key.
pub fn extend_key(k: &mut Vec<i128>, s: &str)
    ensures
        key(final(k)@) == key(old(k)@) + text_key(s@),
{
    let chars = chars_of(s);
    let mut i: usize = 0;
    proof {
        assert(key(k@) =~= key(old(k)@) + text_key(s@).take(0));
    }
    while i < chars.len()
        invariant
            i <= chars@.len(),
            chars@ == s@,
            key(k@) == key(old(k)@) + text_key(s@).take(i as int),
        decreases chars@.len() - i,
    {
        let c: char = chars[i];
        let u: u32 = c as u32;
        let ghost before = k@;
        k.push(u as i128);
        proof {
            assert(key(k@) =~= key(before).push(u as int));
            assert(text_key(s@).take(i + 1) =~= text_key(s@).take(i as int).push(u as int));
            assert(key(k@) =~= key(old(k)@) + text_key(s@).take(i + 1));
        }
        i = i + 1;
    }
    proof {
        assert(text_key(s@).take(i as int) =~= text_key(s@));
    }
}

/// The sort key of a text.
pub fn key_of_text(s: &str) -> (r: Vec<i128>)
    ensures
        key(r@) == text_key(s@),
{
    let mut k: Vec<i128> = Vec::new();
    extend_key(&mut k, s);
    proof {
        assert(key(k@) =~= text_key(s@));
    }
    k
}

/// Sorts a list of strings.
pub fn sort_texts(list: &Vec<String>) -> (r: Vec<String>)
    ensures
        text::views(r@) == sorted_texts(text::views(list@)),
{
    broadcast use crate::text::group_views;

    let mut ks: Vec<Vec<i128>> = Vec::new();
    let mut i: usize = 0;
    while i < list.len()
        invariant
            i <= list@.len(),
            keys(ks@) == text_keys(text::views(list@)).take(i as int),
        decreases list@.len() - i,
    {
        ks.push(key_of_text(list[i].as_str()));
        proof {
            assert(keys(ks@).drop_last() =~= text_keys(text::views(list@)).take(i as int));
            assert(keys(ks@).last() == text_keys(text::views(list@))[i as int]);
            assert(keys(ks@) =~= text_keys(text::views(list@)).take(i + 1));
        }
        i = i + 1;
    }
    proof {
        assert(keys(ks@) =~= text_keys(text::views(list@)));
    }
    let order = order_of(&ks);
    let ghost wanted = arranged(text::views(list@), positions(order@));
    let mut out: Vec<String> = Vec::new();
    let mut j: usize = 0;
    while j < order.len()
        invariant
            j <= order@.len(),
            is_order(keys(ks@), positions(order@)),
            ks@.len() == list@.len(),
            wanted == arranged(text::views(list@), positions(order@)),
            text::views(out@) == wanted.take(j as int),
        decreases order@.len() - j,
    {
        proof {
            assert(positions(order@)[j as int] == order@[j as int]);
            assert(wanted.take(j + 1) =~= wanted.take(j as int).push(wanted[j as int]));
        }
        out.push(list[order[j]].clone());
        j = j + 1;
    }
    proof {
        assert(wanted.take(j as int) =~= wanted);
    }
    out
}

// ---------------------------------------------------------------------------
// What holds of orders
// ---------------------------------------------------------------------------
/// Of two texts that agree up to a place, the one with the smaller character
/// there comes first, and the other does not.
pub proof fn law_first_difference_decides(a: Text, b: Text, n: int)
    requires
        0 <= n < a.len(),
        n < b.len(),
        a.take(n) == b.take(n),
        (a[n] as u32) < (b[n] as u32),
    ensures
        key_lt(text_key(a), text_key(b)),
        !key_lt(text_key(b), text_key(a)),
    decreases n,
{
    let x = text_key(a);
    let y = text_key(b);
    assert(x[0] == a[0] as u32 as int);
    assert(y[0] == b[0] as u32 as int);
    if n > 0 {
        let c = a.drop_first();
        let d = b.drop_first();
        assert(a.take(n)[0] == b.take(n)[0]);
        assert(c.take(n - 1) =~= a.take(n).drop_first());
        assert(d.take(n - 1) =~= b.take(n).drop_first());
        law_first_difference_decides(c, d, n - 1);
        assert(x.drop_first() =~= text_key(c));
        assert(y.drop_first() =~= text_key(d));
        assert(a.take(n)[0] == a[0]);
        assert(b.take(n)[0] == b[0]);
        assert(x[0] == y[0]);
        assert(key_lt(x.drop_first(), y.drop_first()));
        assert(key_lt(x, y));
        assert(!key_lt(y, x));
    } else {
        assert(x[0] < y[0]);
    }
}

/// A text comes before every text that it begins.
pub proof fn law_beginnings_come_first(a: Text, rest: Text)
    requires
        rest.len() > 0,
    ensures
        key_lt(text_key(a), text_key(a + rest)),
        !key_lt(text_key(a + rest), text_key(a)),
    decreases a.len(),
{
    let x = text_key(a);
    let y = text_key(a + rest);
    if a.len() > 0 {
        law_beginnings_come_first(a.drop_first(), rest);
        assert((a + rest).drop_first() =~= a.drop_first() + rest);
        assert(x.drop_first() =~= text_key(a.drop_first()));
        assert(y.drop_first() =~= text_key(a.drop_first() + rest));
        assert(x[0] == y[0]);
    }
}

/// A sorted list of texts holds the same texts, each as often, and none comes
/// after one that it belongs before.
pub proof fn law_texts_are_sorted(list: Seq<Text>, i: int, j: int)
    requires
        0 <= i < j < list.len(),
    ensures
        sorted_texts(list).len() == list.len(),
        !key_lt(text_key(sorted_texts(list)[j]), text_key(sorted_texts(list)[i])),
        sorted_texts(list).to_multiset() == list.to_multiset(),
{
    let keys = text_keys(list);
    let order = stable_order(keys);
    lemma_order_exists(keys);
    assert(belongs_before(keys, order[i], order[j]));
    if key_lt(keys[order[j]], keys[order[i]]) {
        if key_lt(keys[order[i]], keys[order[j]]) {
            lemma_key_transitive(keys[order[i]], keys[order[j]], keys[order[i]]);
        }
        lemma_key_irreflexive(keys[order[i]]);
    }
    lemma_arranged_multiset(list, keys);
}

/// Arranging loses nothing and doubles nothing.
pub proof fn lemma_arranged_multiset<A>(items: Seq<A>, keys: Seq<Seq<int>>)
    requires
        items.len() == keys.len(),
    ensures
        arranged(items, stable_order(keys)).to_multiset() == items.to_multiset(),
{
    let order = stable_order(keys);
    lemma_order_exists(keys);
    assert forall|i: int, j: int| 0 <= i < order.len() && 0 <= j < order.len() && order[i]
        == order[j] implies i == j by {
        lemma_order_distinct(keys, order, i, j);
    }
    lemma_permuted(items, order);
}

/// Items taken at every place once.
proof fn lemma_permuted<A>(items: Seq<A>, order: Seq<int>)
    requires
        order.len() == items.len(),
        forall|k: int| 0 <= k < order.len() ==> 0 <= #[trigger] order[k] < items.len(),
        forall|i: int, j: int|
            0 <= i < order.len() && 0 <= j < order.len() && order[i] == order[j] ==> i == j,
        forall|v: int| 0 <= v < items.len() ==> #[trigger] order.contains(v),
    ensures
        arranged(items, order).to_multiset() == items.to_multiset(),
    decreases items.len(),
{
    broadcast use vstd::seq_lib::group_to_multiset_ensures;

    let whole = arranged(items, order);
    if items.len() == 0 {
        assert(whole =~= items);
    } else {
        let last = items.len() - 1;
        assert(order.contains(last));
        let p = choose|p: int| 0 <= p < order.len() && order[p] == last;
        let rest = items.drop_last();
        let others = order.remove(p);
        assert forall|k: int| 0 <= k < others.len() implies 0 <= #[trigger] others[k] < rest.len() by {
            if k < p {
                assert(others[k] == order[k]);
            } else {
                assert(others[k] == order[k + 1]);
            }
        }
        assert forall|v: int| 0 <= v < rest.len() implies #[trigger] others.contains(v) by {
            assert(order.contains(v));
            let q = choose|q: int| 0 <= q < order.len() && order[q] == v;
            if q < p {
                assert(others[q] == v);
            } else {
                assert(others[q - 1] == v);
            }
        }
        lemma_permuted(rest, others);
        assert(arranged(rest, others) =~= whole.remove(p));
        assert(whole =~= whole.remove(p).insert(p, items[last]));
        assert(items =~= rest.push(items[last]));
        assert(whole.remove(p).insert(p, items[last]).to_multiset() =~= whole.remove(p).to_multiset().insert(
            items[last],
        ));
    }
}

} // verus!
