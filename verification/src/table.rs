//! Tables keyed by strings, kept as lists of (key, value) pairs: a key's value is
//! that of its last occurrence.
use vstd::prelude::*;

use crate::text::{str_equals, str_to_chars};

verus! {

/// Whether no key occurs twice in a table.
pub open spec fn keys_unique<V>(items: Seq<(String, V)>) -> bool {
    forall|i: int, j: int| 0 <= i < j < items.len() ==> #[trigger] items[i].0@ != #[trigger] items[j].0@
}

/// Whether a text comes before another in the order of their characters' code
/// points, a prefix first (the order of `String`, whose UTF-8 bytes keep it).
pub open spec fn text_lt(a: Seq<char>, b: Seq<char>) -> bool
    decreases a.len(),
{
    if a.len() == 0 {
        b.len() > 0
    } else if b.len() == 0 {
        false
    } else if a[0] != b[0] {
        (a[0] as int) < (b[0] as int)
    } else {
        text_lt(a.drop_first(), b.drop_first())
    }
}

/// Whether the keys of a table come in increasing order, each once.
pub open spec fn keys_sorted<V>(items: Seq<(String, V)>) -> bool {
    forall|i: int, j: int| 0 <= i < j < items.len() ==> text_lt(#[trigger] items[i].0@, #[trigger] items[j].0@)
}

pub proof fn lemma_text_lt_irreflexive(a: Seq<char>)
    ensures
        !text_lt(a, a),
    decreases a.len(),
{
    if a.len() > 0 {
        lemma_text_lt_irreflexive(a.drop_first());
    }
}

pub proof fn lemma_text_lt_transitive(a: Seq<char>, b: Seq<char>, c: Seq<char>)
    requires
        text_lt(a, b),
        text_lt(b, c),
    ensures
        text_lt(a, c),
    decreases a.len(),
{
    if a.len() > 0 && b.len() > 0 && c.len() > 0 && a[0] == b[0] && b[0] == c[0] {
        lemma_text_lt_transitive(a.drop_first(), b.drop_first(), c.drop_first());
    }
}

pub proof fn lemma_text_lt_total(a: Seq<char>, b: Seq<char>)
    requires
        a != b,
    ensures
        text_lt(a, b) || text_lt(b, a),
    decreases a.len(),
{
    if a.len() > 0 && b.len() > 0 && a[0] == b[0] {
        if a.drop_first() == b.drop_first() {
            assert(a =~= seq![a[0]] + a.drop_first());
            assert(b =~= seq![b[0]] + b.drop_first());
        }
        lemma_text_lt_total(a.drop_first(), b.drop_first());
    } else if a.len() == 0 && b.len() == 0 {
        assert(a =~= b);
    }
}

/// Sorted keys occur once each.
pub proof fn lemma_sorted_unique<V>(items: Seq<(String, V)>)
    requires
        keys_sorted(items),
    ensures
        keys_unique(items),
{
    assert forall|i: int, j: int| 0 <= i < j < items.len() implies #[trigger] items[i].0@ != #[trigger] items[j].0@ by {
        assert(text_lt(items[i].0@, items[j].0@));
        lemma_text_lt_irreflexive(items[i].0@);
    }
}

/// Whether one text comes before another (see `text_lt`).
pub fn text_less(a: &str, b: &str) -> (res: bool)
    ensures
        res == text_lt(a@, b@),
{
    let av = str_to_chars(a);
    let bv = str_to_chars(b);
    let mut i: usize = 0;
    assert(a@.skip(0) =~= a@);
    assert(b@.skip(0) =~= b@);
    while i < av.len() && i < bv.len() && av[i] == bv[i]
        invariant
            av@ == a@,
            bv@ == b@,
            i <= av@.len(),
            i <= bv@.len(),
            text_lt(a@, b@) == text_lt(a@.skip(i as int), b@.skip(i as int)),
        decreases av@.len() - i,
    {
        assert(a@.skip(i as int).drop_first() =~= a@.skip(i + 1));
        assert(b@.skip(i as int).drop_first() =~= b@.skip(i + 1));
        i = i + 1;
    }
    if i == av.len() {
        i < bv.len()
    } else if i == bv.len() {
        false
    } else {
        av[i] < bv[i]
    }
}

/// The contents of a table (the last occurrence of a key wins).
pub open spec fn table_view<V>(items: Seq<(String, V)>) -> Map<Seq<char>, V>
    decreases items.len(),
{
    if items.len() == 0 {
        Map::empty()
    } else {
        table_view(items.drop_last()).insert(items.last().0@, items.last().1)
    }
}

proof fn lemma_table_view_absent<V>(items: Seq<(String, V)>, k: Seq<char>)
    requires
        forall|j: int| 0 <= j < items.len() ==> items[j].0@ != k,
    ensures
        !table_view(items).contains_key(k),
    decreases items.len(),
{
    if items.len() > 0 {
        lemma_table_view_absent(items.drop_last(), k);
    }
}

proof fn lemma_table_view_at<V>(items: Seq<(String, V)>, i: int)
    requires
        0 <= i < items.len(),
        forall|j: int| i < j < items.len() ==> items[j].0@ != items[i].0@,
    ensures
        table_view(items).contains_key(items[i].0@),
        table_view(items)[items[i].0@] == items[i].1,
    decreases items.len(),
{
    if i < items.len() - 1 {
        lemma_table_view_at(items.drop_last(), i);
    }
}

/// A table has a key exactly when one of its items has it.
pub proof fn lemma_table_view_keys<V>(items: Seq<(String, V)>, k: Seq<char>)
    ensures
        table_view(items).contains_key(k) <==> exists|j: int| 0 <= j < items.len() && items[j].0@ == k,
    decreases items.len(),
{
    if items.len() > 0 {
        lemma_table_view_keys(items.drop_last(), k);
        if items.last().0@ == k {
            assert(items[items.len() - 1].0@ == k);
        } else {
            assert forall|j: int| 0 <= j < items.len() && items[j].0@ == k implies 0 <= j < items.len()
                - 1 && items.drop_last()[j].0@ == k by {}
            assert forall|j: int| 0 <= j < items.len() - 1 && items.drop_last()[j].0@ == k implies 0 <= j
                < items.len() && items[j].0@ == k by {}
        }
    }
}

/// The index of the last item with a key, if any.
pub fn table_index<V>(items: &Vec<(String, V)>, key: &str) -> (res: Option<usize>)
    ensures
        table_view(items@).contains_key(key@) <==> res is Some,
        res matches Some(i) ==> i < items@.len() && items@[i as int].0@ == key@
            && table_view(items@)[key@] == items@[i as int].1 && forall|j: int|
            i < j < items@.len() ==> items@[j].0@ != key@,
{
    let mut i = items.len();
    while i > 0
        invariant
            i <= items@.len(),
            forall|j: int| i <= j < items@.len() ==> items@[j].0@ != key@,
        decreases i,
    {
        if str_equals(items[i - 1].0.as_str(), key) {
            proof {
                lemma_table_view_at(items@, i - 1);
            }
            return Some(i - 1);
        }
        i = i - 1;
    }
    proof {
        lemma_table_view_absent(items@, key@);
    }
    None
}

/// The value under a key, if any.
pub fn table_get<'a, V>(items: &'a Vec<(String, V)>, key: &str) -> (res: Option<&'a V>)
    ensures
        table_view(items@).contains_key(key@) <==> res is Some,
        res matches Some(v) ==> *v == table_view(items@)[key@],
{
    match table_index(items, key) {
        Some(i) => Some(&items[i].1),
        None => None,
    }
}

proof fn lemma_table_view_update<V>(items: Seq<(String, V)>, i: int, x: (String, V))
    requires
        0 <= i < items.len(),
        x.0@ == items[i].0@,
        forall|j: int| i < j < items.len() ==> items[j].0@ != items[i].0@,
    ensures
        table_view(items.update(i, x)) == table_view(items).insert(x.0@, x.1),
    decreases items.len(),
{
    let u = items.update(i, x);
    if i == items.len() - 1 {
        assert(u.drop_last() =~= items.drop_last());
        assert(table_view(u) =~= table_view(items).insert(x.0@, x.1));
    } else {
        lemma_table_view_update(items.drop_last(), i, x);
        assert(u.drop_last() =~= items.drop_last().update(i, x));
        assert(table_view(u) =~= table_view(items).insert(x.0@, x.1));
    }
}

/// Puts a value under a key, in place of the one it had, if any.
pub fn table_insert<V>(items: &mut Vec<(String, V)>, key: String, value: V)
    ensures
        table_view(final(items)@) == table_view(old(items)@).insert(key@, value),
        keys_unique(old(items)@) ==> keys_unique(final(items)@),
        keys_sorted(old(items)@) ==> keys_sorted(final(items)@),
{
    let ghost k = key@;
    match table_index(items, key.as_str()) {
        Some(i) => {
            let ghost old_items = items@;
            items.set(i, (key, value));
            proof {
                lemma_table_view_update(old_items, i as int, items@[i as int]);
                assert forall|a: int| 0 <= a < items@.len() implies #[trigger] items@[a].0@ == old_items[a].0@ by {}
                if keys_unique(old_items) {
                    assert forall|a: int, b: int| 0 <= a < b < items@.len() implies #[trigger] items@[a].0@
                        != #[trigger] items@[b].0@ by {
                        assert(old_items[a].0@ != old_items[b].0@);
                    }
                }
                if keys_sorted(old_items) {
                    assert forall|a: int, b: int| 0 <= a < b < items@.len() implies text_lt(
                        #[trigger] items@[a].0@,
                        #[trigger] items@[b].0@,
                    ) by {
                        assert(text_lt(old_items[a].0@, old_items[b].0@));
                    }
                }
            }
        },
        None => {
            let ghost old_items = items@;
            proof {
                lemma_table_view_keys(old_items, k);
            }
            let mut p: usize = 0;
            while p < items.len() && text_less(items[p].0.as_str(), key.as_str())
                invariant
                    items@ == old_items,
                    k == key@,
                    p <= items@.len(),
                    forall|q: int| 0 <= q < p ==> text_lt(#[trigger] items@[q].0@, k),
                decreases items@.len() - p,
            {
                p = p + 1;
            }
            items.insert(p, (key, value));
            proof {
                lemma_table_view_insert_fresh(old_items, p as int, items@[p as int]);
                if keys_unique(old_items) {
                    assert forall|a: int, b: int| 0 <= a < b < items@.len() implies #[trigger] items@[a].0@
                        != #[trigger] items@[b].0@ by {
                        let a0 = if a < p { a } else { a - 1 };
                        let b0 = if b < p { b } else { b - 1 };
                        if a != p && b != p {
                            assert(items@[a] == old_items[a0]);
                            assert(items@[b] == old_items[b0]);
                            assert(old_items[a0].0@ != old_items[b0].0@);
                        } else if a == p {
                            assert(items@[b] == old_items[b0]);
                        } else {
                            assert(items@[a] == old_items[a0]);
                        }
                    }
                }
                if keys_sorted(old_items) {
                    if (p as int) < old_items.len() {
                        assert(!text_lt(old_items[p as int].0@, k));
                        lemma_text_lt_total(old_items[p as int].0@, k);
                        assert(text_lt(k, old_items[p as int].0@));
                    }
                    assert forall|a: int, b: int| 0 <= a < b < items@.len() implies text_lt(
                        #[trigger] items@[a].0@,
                        #[trigger] items@[b].0@,
                    ) by {
                        let a0 = if a < p { a } else { a - 1 };
                        let b0 = if b < p { b } else { b - 1 };
                        if a != p && b != p {
                            assert(items@[a] == old_items[a0]);
                            assert(items@[b] == old_items[b0]);
                            assert(text_lt(old_items[a0].0@, old_items[b0].0@));
                        } else if a == p {
                            assert(items@[b] == old_items[b0]);
                            if b0 > p {
                                assert(text_lt(old_items[p as int].0@, old_items[b0].0@));
                                lemma_text_lt_transitive(k, old_items[p as int].0@, old_items[b0].0@);
                            }
                        } else {
                            assert(items@[a] == old_items[a0]);
                        }
                    }
                }
            }
        },
    }
}

proof fn lemma_table_view_insert_fresh<V>(items: Seq<(String, V)>, p: int, e: (String, V))
    requires
        0 <= p <= items.len(),
        !table_view(items).contains_key(e.0@),
    ensures
        table_view(items.insert(p, e)) == table_view(items).insert(e.0@, e.1),
    decreases items.len(),
{
    let n = items.insert(p, e);
    if p == items.len() {
        assert(n.drop_last() =~= items);
    } else {
        let last = items.last();
        assert(n.drop_last() =~= items.drop_last().insert(p, e));
        assert(n.last() == last);
        assert(!table_view(items.drop_last()).contains_key(e.0@)) by {
            if table_view(items.drop_last()).contains_key(e.0@) {
                assert(table_view(items).contains_key(e.0@));
            }
        }
        lemma_table_view_insert_fresh(items.drop_last(), p, e);
        assert(last.0@ != e.0@) by {
            assert(table_view(items).contains_key(last.0@));
        }
        assert(table_view(n) =~= table_view(items).insert(e.0@, e.1));
    }
}

proof fn lemma_table_view_remove_at<V>(items: Seq<(String, V)>, j: int, k: Seq<char>)
    requires
        0 <= j < items.len(),
        items[j].0@ == k,
    ensures
        table_view(items.remove(j)).remove(k) == table_view(items).remove(k),
    decreases items.len(),
{
    let r = items.remove(j);
    if j == items.len() - 1 {
        assert(r =~= items.drop_last());
        assert(table_view(items).remove(k) =~= table_view(items.drop_last()).remove(k));
    } else {
        let dl = items.drop_last();
        lemma_table_view_remove_at(dl, j, k);
        assert(r =~= dl.remove(j).push(items.last()));
        assert(r.drop_last() =~= dl.remove(j));
        assert(table_view(r) == table_view(dl.remove(j)).insert(items.last().0@, items.last().1));
        assert(table_view(items) == table_view(dl).insert(items.last().0@, items.last().1));
        if items.last().0@ == k {
            assert(table_view(r).remove(k) =~= table_view(dl.remove(j)).remove(k));
            assert(table_view(items).remove(k) =~= table_view(dl).remove(k));
        } else {
            assert(table_view(r).remove(k) =~= table_view(dl.remove(j)).remove(k).insert(
                items.last().0@,
                items.last().1,
            ));
            assert(table_view(items).remove(k) =~= table_view(dl).remove(k).insert(
                items.last().0@,
                items.last().1,
            ));
        }
    }
}

/// Removes a key from a table, wherever it occurs.
pub fn table_remove<V>(items: &mut Vec<(String, V)>, key: &str)
    ensures
        table_view(final(items)@) == table_view(old(items)@).remove(key@),
        forall|j: int| 0 <= j < final(items)@.len() ==> final(items)@[j].0@ != key@,
        keys_unique(old(items)@) ==> keys_unique(final(items)@),
        keys_sorted(old(items)@) ==> keys_sorted(final(items)@),
{
    let mut i = items.len();
    while i > 0
        invariant
            i <= items@.len(),
            forall|j: int| i <= j < items@.len() ==> items@[j].0@ != key@,
            table_view(items@).remove(key@) == table_view(old(items)@).remove(key@),
            keys_unique(old(items)@) ==> keys_unique(items@),
            keys_sorted(old(items)@) ==> keys_sorted(items@),
        decreases i,
    {
        if str_equals(items[i - 1].0.as_str(), key) {
            let ghost before = items@;
            let _removed = items.remove(i - 1);
            proof {
                lemma_table_view_remove_at(before, i - 1, key@);
                if keys_unique(before) {
                    assert forall|a: int, b: int| 0 <= a < b < items@.len() implies #[trigger] items@[a].0@
                        != #[trigger] items@[b].0@ by {
                        let a0 = if a < i - 1 { a } else { a + 1 };
                        let b0 = if b < i - 1 { b } else { b + 1 };
                        assert(items@[a] == before[a0]);
                        assert(items@[b] == before[b0]);
                        assert(before[a0].0@ != before[b0].0@);
                    }
                }
                if keys_sorted(before) {
                    assert forall|a: int, b: int| 0 <= a < b < items@.len() implies text_lt(
                        #[trigger] items@[a].0@,
                        #[trigger] items@[b].0@,
                    ) by {
                        let a0 = if a < i - 1 { a } else { a + 1 };
                        let b0 = if b < i - 1 { b } else { b + 1 };
                        assert(items@[a] == before[a0]);
                        assert(items@[b] == before[b0]);
                        assert(text_lt(before[a0].0@, before[b0].0@));
                    }
                }
                assert forall|j: int| i - 1 <= j < items@.len() implies items@[j].0@ != key@ by {
                    assert(items@[j] == before[j + 1]);
                }
            }
        }
        i = i - 1;
    }
    proof {
        lemma_table_view_absent(items@, key@);
        assert(table_view(items@).remove(key@) =~= table_view(items@));
    }
}

} // verus!
