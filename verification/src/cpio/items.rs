//! Sequences of named entries, and the mapping that such a sequence stands for.

use vstd::prelude::*;
use crate::order::{lemma_lex_asymmetric, lemma_lex_irreflexive, lex_lt};
use crate::cpio::entry::EntryView;

verus! {

/// A sequence of named entries: a name as bytes, and the entry's value.
pub type Items = Seq<(Seq<u8>, EntryView)>;

/// The names strictly ascend, so no name occurs twice.
pub open spec fn sorted(items: Items) -> bool {
    forall|i: int, j: int| 0 <= i < j < items.len() ==> lex_lt(#[trigger] items[i].0, #[trigger] items[j].0)
}

/// The mapping that results from inserting the items one after the other,
/// a later item replacing an earlier one of the same name.
pub open spec fn to_map(items: Items) -> Map<Seq<u8>, EntryView>
    decreases items.len(),
{
    if items.len() == 0 {
        Map::empty()
    } else {
        to_map(items.drop_last()).insert(items.last().0, items.last().1)
    }
}

/// Whether some item carries the name `key`.
pub open spec fn has_key(items: Items, key: Seq<u8>) -> bool {
    exists|i: int| 0 <= i < items.len() && #[trigger] items[i].0 == key
}

/// The names of the mapping are the names of the items.
pub proof fn lemma_to_map_dom(items: Items, key: Seq<u8>)
    ensures
        to_map(items).dom().contains(key) <==> has_key(items, key),
    decreases items.len(),
{
    if items.len() > 0 {
        let front = items.drop_last();
        lemma_to_map_dom(front, key);
        if has_key(front, key) {
            let i = choose|i: int| 0 <= i < front.len() && #[trigger] front[i].0 == key;
            assert(items[i].0 == key);
        }
        if has_key(items, key) {
            let i = choose|i: int| 0 <= i < items.len() && #[trigger] items[i].0 == key;
            if i < items.len() - 1 {
                assert(front[i].0 == key);
            }
        }
    }
}

/// Where the names ascend, each item is what the mapping holds under its name.
pub proof fn lemma_to_map_value(items: Items, i: int)
    requires
        sorted(items),
        0 <= i < items.len(),
    ensures
        to_map(items).dom().contains(items[i].0),
        to_map(items)[items[i].0] == items[i].1,
    decreases items.len(),
{
    let front = items.drop_last();
    if i < items.len() - 1 {
        assert(sorted(front)) by {
            assert forall|a: int, b: int| 0 <= a < b < front.len() implies lex_lt(
                #[trigger] front[a].0,
                #[trigger] front[b].0,
            ) by {
                assert(lex_lt(items[a].0, items[b].0));
            }
        }
        lemma_to_map_value(front, i);
        assert(front[i] == items[i]);
        assert(lex_lt(items[i].0, items[items.len() - 1].0));
        lemma_lex_asymmetric(items[i].0, items.last().0);
    }
}

/// A prefix of ascending items ascends.
pub proof fn lemma_sorted_take(items: Items, n: int)
    requires
        sorted(items),
        0 <= n <= items.len(),
    ensures
        sorted(items.take(n)),
{
    let t = items.take(n);
    assert forall|a: int, b: int| 0 <= a < b < t.len() implies lex_lt(
        #[trigger] t[a].0,
        #[trigger] t[b].0,
    ) by {
        assert(lex_lt(items[a].0, items[b].0));
    }
}

/// Two ascending sequences that give the same mapping are the same sequence.
pub proof fn lemma_sorted_items_unique(a: Items, b: Items)
    requires
        sorted(a),
        sorted(b),
        to_map(a) == to_map(b),
    ensures
        a == b,
    decreases a.len(),
{
    if a.len() == 0 {
        if b.len() > 0 {
            lemma_to_map_value(b, 0);
            assert(to_map(a).dom().contains(b[0].0));
        }
        assert(a =~= b);
    } else {
        let la = a.len() - 1;
        lemma_to_map_value(a, la);
        lemma_to_map_dom(b, a[la].0);
        assert(b.len() > 0);
        let lb = b.len() - 1;
        lemma_to_map_value(b, lb);
        lemma_to_map_dom(a, b[lb].0);
        // the last name of each is the greatest name of the mapping
        let ia = choose|i: int| 0 <= i < a.len() && #[trigger] a[i].0 == b[lb].0;
        let ib = choose|i: int| 0 <= i < b.len() && #[trigger] b[i].0 == a[la].0;
        if ia < la {
            assert(lex_lt(a[ia].0, a[la].0));
            if ib < lb {
                assert(lex_lt(b[ib].0, b[lb].0));
                lemma_lex_asymmetric(a[ia].0, a[la].0);
            } else {
                lemma_lex_irreflexive(a[la].0);
            }
        }
        assert(a[la].0 == b[lb].0);
        assert(a[la].1 == b[lb].1);
        let fa = a.drop_last();
        let fb = b.drop_last();
        lemma_sorted_take(a, la);
        lemma_sorted_take(b, lb);
        assert(fa =~= a.take(la));
        assert(fb =~= b.take(lb));
        lemma_drop_last_removes(a);
        lemma_drop_last_removes(b);
        lemma_sorted_items_unique(fa, fb);
        assert(a =~= fa.push(a[la]));
        assert(b =~= fb.push(b[lb]));
    }
}

/// Dropping the last of ascending items removes its name from the mapping.
pub proof fn lemma_drop_last_removes(items: Items)
    requires
        sorted(items),
        items.len() > 0,
    ensures
        to_map(items.drop_last()) == to_map(items).remove(items.last().0),
{
    let front = items.drop_last();
    let k = items.last().0;
    lemma_to_map_dom(front, k);
    if has_key(front, k) {
        let i = choose|i: int| 0 <= i < front.len() && #[trigger] front[i].0 == k;
        assert(lex_lt(items[i].0, items[items.len() - 1].0));
        lemma_lex_irreflexive(k);
    }
    assert(to_map(front) =~= to_map(items).remove(k));
}

/// Replacing the value of one of ascending items replaces it in the mapping.
pub proof fn lemma_update_item(items: Items, i: int, value: EntryView)
    requires
        sorted(items),
        0 <= i < items.len(),
    ensures
        sorted(items.update(i, (items[i].0, value))),
        to_map(items.update(i, (items[i].0, value))) == to_map(items).insert(items[i].0, value),
{
    let key = items[i].0;
    let new = items.update(i, (key, value));
    assert(sorted(new)) by {
        assert forall|a: int, b: int| 0 <= a < b < new.len() implies lex_lt(
            #[trigger] new[a].0,
            #[trigger] new[b].0,
        ) by {
            assert(lex_lt(items[a].0, items[b].0));
        }
    }
    assert forall|x: Seq<u8>| to_map(new).dom().contains(x) <==> to_map(items).insert(
        key,
        value,
    ).dom().contains(x) by {
        lemma_to_map_dom(new, x);
        lemma_to_map_dom(items, x);
        if has_key(new, x) {
            let j = choose|j: int| 0 <= j < new.len() && #[trigger] new[j].0 == x;
            assert(items[j].0 == x);
        }
        if has_key(items, x) {
            let j = choose|j: int| 0 <= j < items.len() && #[trigger] items[j].0 == x;
            assert(new[j].0 == x);
        }
        if x == key {
            assert(new[i].0 == x);
        }
    }
    assert forall|x: Seq<u8>| to_map(new).dom().contains(x) implies #[trigger] to_map(new)[x]
        == to_map(items).insert(key, value)[x] by {
        lemma_to_map_dom(new, x);
        let j = choose|j: int| 0 <= j < new.len() && #[trigger] new[j].0 == x;
        lemma_to_map_value(new, j);
        lemma_to_map_value(items, j);
        if j != i {
            assert(items[j].0 == x);
            if x == key {
                if j < i {
                    assert(lex_lt(items[j].0, items[i].0));
                } else {
                    assert(lex_lt(items[i].0, items[j].0));
                }
                lemma_lex_irreflexive(key);
            }
        }
    }
    assert(to_map(new) =~= to_map(items).insert(key, value));
}

/// Putting a new name at the place where the order wants it keeps the items
/// ascending and adds it to the mapping.
pub proof fn lemma_insert_item(items: Items, at: int, key: Seq<u8>, value: EntryView)
    requires
        sorted(items),
        0 <= at <= items.len(),
        forall|j: int| 0 <= j < at ==> lex_lt(#[trigger] items[j].0, key),
        forall|j: int| at <= j < items.len() ==> lex_lt(key, #[trigger] items[j].0),
    ensures
        sorted(items.insert(at, (key, value))),
        to_map(items.insert(at, (key, value))) == to_map(items).insert(key, value),
{
    let new = items.insert(at, (key, value));
    assert(sorted(new)) by {
        assert forall|a: int, b: int| 0 <= a < b < new.len() implies lex_lt(
            #[trigger] new[a].0,
            #[trigger] new[b].0,
        ) by {
            if b < at {
                assert(lex_lt(items[a].0, items[b].0));
            } else if b == at {
                assert(lex_lt(items[a].0, key));
            } else if a == at {
                assert(lex_lt(key, items[b - 1].0));
            } else if a < at {
                assert(lex_lt(items[a].0, items[b - 1].0));
            } else {
                assert(lex_lt(items[a - 1].0, items[b - 1].0));
            }
        }
    }
    assert forall|x: Seq<u8>| to_map(new).dom().contains(x) <==> to_map(items).insert(
        key,
        value,
    ).dom().contains(x) by {
        lemma_to_map_dom(new, x);
        lemma_to_map_dom(items, x);
        if has_key(new, x) {
            let j = choose|j: int| 0 <= j < new.len() && #[trigger] new[j].0 == x;
            if j < at {
                assert(items[j].0 == x);
            } else if j > at {
                assert(items[j - 1].0 == x);
            }
        }
        if has_key(items, x) {
            let j = choose|j: int| 0 <= j < items.len() && #[trigger] items[j].0 == x;
            if j < at {
                assert(new[j].0 == x);
            } else {
                assert(new[j + 1].0 == x);
            }
        }
        if x == key {
            assert(new[at].0 == x);
        }
    }
    assert forall|x: Seq<u8>| to_map(new).dom().contains(x) implies #[trigger] to_map(new)[x]
        == to_map(items).insert(key, value)[x] by {
        lemma_to_map_dom(new, x);
        let j = choose|j: int| 0 <= j < new.len() && #[trigger] new[j].0 == x;
        lemma_to_map_value(new, j);
        lemma_lex_irreflexive(key);
        if j < at {
            lemma_to_map_value(items, j);
            assert(lex_lt(items[j].0, key));
        } else if j > at {
            lemma_to_map_value(items, j - 1);
            assert(lex_lt(key, items[j - 1].0));
        }
    }
    assert(to_map(new) =~= to_map(items).insert(key, value));
}

/// Taking one of ascending items out keeps the rest ascending and removes
/// its name from the mapping.
pub proof fn lemma_remove_item(items: Items, i: int)
    requires
        sorted(items),
        0 <= i < items.len(),
    ensures
        sorted(items.remove(i)),
        to_map(items.remove(i)) == to_map(items).remove(items[i].0),
{
    let key = items[i].0;
    let new = items.remove(i);
    assert(sorted(new)) by {
        assert forall|a: int, b: int| 0 <= a < b < new.len() implies lex_lt(
            #[trigger] new[a].0,
            #[trigger] new[b].0,
        ) by {
            if b < i {
                assert(lex_lt(items[a].0, items[b].0));
            } else if a < i {
                assert(lex_lt(items[a].0, items[b + 1].0));
            } else {
                assert(lex_lt(items[a + 1].0, items[b + 1].0));
            }
        }
    }
    lemma_lex_irreflexive(key);
    assert forall|x: Seq<u8>| to_map(new).dom().contains(x) <==> to_map(items).remove(
        key,
    ).dom().contains(x) by {
        lemma_to_map_dom(new, x);
        lemma_to_map_dom(items, x);
        if has_key(new, x) {
            let j = choose|j: int| 0 <= j < new.len() && #[trigger] new[j].0 == x;
            if j < i {
                assert(items[j].0 == x);
                assert(lex_lt(items[j].0, items[i].0));
            } else {
                assert(items[j + 1].0 == x);
                assert(lex_lt(items[i].0, items[j + 1].0));
            }
        }
        if has_key(items, x) && x != key {
            let j = choose|j: int| 0 <= j < items.len() && #[trigger] items[j].0 == x;
            if j < i {
                assert(new[j].0 == x);
            } else {
                assert(new[j - 1].0 == x);
            }
        }
    }
    assert forall|x: Seq<u8>| to_map(new).dom().contains(x) implies #[trigger] to_map(new)[x]
        == to_map(items).remove(key)[x] by {
        lemma_to_map_dom(new, x);
        let j = choose|j: int| 0 <= j < new.len() && #[trigger] new[j].0 == x;
        lemma_to_map_value(new, j);
        if j < i {
            lemma_to_map_value(items, j);
        } else {
            lemma_to_map_value(items, j + 1);
        }
    }
    assert(to_map(new) =~= to_map(items).remove(key));
}

/// The items whose names are not in `gone`, in their order.
pub open spec fn keep_outside(items: Items, gone: Set<Seq<u8>>) -> Items
    decreases items.len(),
{
    if items.len() == 0 {
        items
    } else {
        let front = keep_outside(items.drop_last(), gone);
        if gone.contains(items.last().0) {
            front
        } else {
            front.push(items.last())
        }
    }
}

/// Each of the items kept is one of the items, under a name not in `gone`.
pub proof fn lemma_keep_outside_members(items: Items, gone: Set<Seq<u8>>, j: int)
    requires
        0 <= j < keep_outside(items, gone).len(),
    ensures
        !gone.contains(keep_outside(items, gone)[j].0),
        exists|i: int| 0 <= i < items.len() && #[trigger] items[i] == keep_outside(items, gone)[j],
    decreases items.len(),
{
    if items.len() > 0 {
        let front = items.drop_last();
        let kept = keep_outside(front, gone);
        if j < kept.len() {
            lemma_keep_outside_members(front, gone, j);
            let i = choose|i: int| 0 <= i < front.len() && #[trigger] front[i] == kept[j];
            assert(items[i] == keep_outside(items, gone)[j]);
        } else {
            assert(items[items.len() - 1] == keep_outside(items, gone)[j]);
        }
    }
}

/// Keeping some of ascending items leaves them ascending.
pub proof fn lemma_keep_outside_sorted(items: Items, gone: Set<Seq<u8>>)
    requires
        sorted(items),
    ensures
        sorted(keep_outside(items, gone)),
    decreases items.len(),
{
    if items.len() > 0 {
        let front = items.drop_last();
        let kept = keep_outside(front, gone);
        lemma_sorted_take(items, items.len() - 1);
        assert(front =~= items.take(items.len() - 1));
        lemma_keep_outside_sorted(front, gone);
        let new = keep_outside(items, gone);
        assert forall|a: int, b: int| 0 <= a < b < new.len() implies lex_lt(
            #[trigger] new[a].0,
            #[trigger] new[b].0,
        ) by {
            if b < kept.len() {
                assert(lex_lt(kept[a].0, kept[b].0));
            } else {
                lemma_keep_outside_members(front, gone, a);
                let i = choose|i: int| 0 <= i < front.len() && #[trigger] front[i] == kept[a];
                assert(lex_lt(items[i].0, items[items.len() - 1].0));
            }
        }
    }
}

/// The mapping of the items kept is the mapping without the names in `gone`.
pub proof fn lemma_keep_outside_map(items: Items, gone: Set<Seq<u8>>)
    ensures
        to_map(keep_outside(items, gone)) == to_map(items).remove_keys(gone),
    decreases items.len(),
{
    if items.len() == 0 {
        assert(to_map(items) =~= to_map(items).remove_keys(gone));
    } else {
        let front = items.drop_last();
        lemma_keep_outside_map(front, gone);
        let kept = keep_outside(front, gone);
        if gone.contains(items.last().0) {
            assert(to_map(front).remove_keys(gone) =~= to_map(items).remove_keys(gone));
        } else {
            assert(kept.push(items.last()).drop_last() =~= kept);
            assert(to_map(front).remove_keys(gone).insert(items.last().0, items.last().1)
                =~= to_map(items).remove_keys(gone));
        }
    }
}

} // verus!
