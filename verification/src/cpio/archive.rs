//! The archive: entries kept in ascending order of their names.

use vstd::prelude::*;
use vstd::utf8::encode_utf8;
use crate::order::{
    bytes_lt, has_prefix, lemma_lex_irreflexive, lemma_lex_total, lemma_lex_transitive, lex_lt,
    starts_with,
};
use crate::cpio::entry::{CpioEntry, EntryView};
use crate::cpio::items::{
    has_key, keep_outside, lemma_insert_item, lemma_keep_outside_map, lemma_keep_outside_sorted,
    lemma_remove_item, lemma_to_map_dom, lemma_to_map_value, lemma_update_item, sorted, to_map,
    Items,
};

verus! {

/// The names that start with `prefix`.
pub open spec fn names_under(prefix: Seq<u8>) -> Set<Seq<u8>> {
    Set::new(|name: Seq<u8>| has_prefix(name, prefix))
}

/// An in-memory archive: a mapping from normalized paths to entries, kept in
/// ascending order of the paths' bytes.
pub struct Cpio {
    entries: Vec<(String, CpioEntry)>,
}

impl View for Cpio {
    type V = Map<Seq<u8>, EntryView>;

    /// The archive as a mapping from a path's bytes to the entry's value.
    open spec fn view(&self) -> Map<Seq<u8>, EntryView> {
        to_map(self.items())
    }
}

impl Cpio {
    /// The entries in the order in which they are kept and written.
    pub closed spec fn items(&self) -> Items {
        Seq::new(
            self.entries@.len(),
            |i: int| (encode_utf8(self.entries@[i].0@), self.entries@[i].1@),
        )
    }

    /// The archive is well formed: its names strictly ascend.
    pub open spec fn wf(&self) -> bool {
        sorted(self.items())
    }

    /// An archive without entries.
    pub fn new() -> (c: Cpio)
        ensures
            c.wf(),
            c.items() == Seq::<(Seq<u8>, EntryView)>::empty(),
            c@ == Map::<Seq<u8>, EntryView>::empty(),
    {
        let c = Cpio { entries: Vec::new() };
        assert(c.items() =~= Seq::<(Seq<u8>, EntryView)>::empty());
        c
    }

    /// The number of entries.
    pub fn len(&self) -> (n: usize)
        ensures
            n == self.items().len(),
    {
        self.entries.len()
    }

    /// The name of the entry at position `i`.
    pub fn name_at(&self, i: usize) -> (name: &str)
        requires
            i < self.items().len(),
        ensures
            encode_utf8(name@) == self.items()[i as int].0,
    {
        self.entries[i].0.as_str()
    }

    /// The entry at position `i`.
    pub fn entry_at(&self, i: usize) -> (entry: &CpioEntry)
        requires
            i < self.items().len(),
        ensures
            entry@ == self.items()[i as int].1,
    {
        &self.entries[i].1
    }

    /// Looks `key` up. Returns whether an entry of that name exists and, if
    /// so, its position; otherwise the position at which it would be
    /// inserted.
    pub fn search(&self, key: &[u8]) -> (r: (bool, usize))
        requires
            self.wf(),
        ensures
            r.1 <= self.items().len(),
            r.0 == self@.dom().contains(key@),
            r.0 ==> r.1 < self.items().len() && self.items()[r.1 as int].0 == key@,
            forall|j: int| 0 <= j < r.1 ==> lex_lt(#[trigger] self.items()[j].0, key@),
            forall|j: int|
                r.1 <= j < self.items().len() && !(r.0 && j == r.1) ==> lex_lt(
                    key@,
                    #[trigger] self.items()[j].0,
                ),
    {
        let ghost items = self.items();
        let mut lo: usize = 0;
        let mut hi: usize = self.entries.len();
        while lo < hi
            invariant
                lo <= hi <= self.entries.len(),
                items == self.items(),
                sorted(items),
                forall|j: int| 0 <= j < lo ==> lex_lt(#[trigger] items[j].0, key@),
                forall|j: int| hi <= j < items.len() ==> lex_lt(key@, #[trigger] items[j].0),
            decreases hi - lo,
        {
            let mid: usize = lo + (hi - lo) / 2;
            let name: &[u8] = self.entries[mid].0.as_str().as_bytes();
            assert(name@ == items[mid as int].0);
            if bytes_lt(name, key) {
                assert forall|j: int| 0 <= j < mid + 1 implies lex_lt(#[trigger] items[j].0, key@) by {
                    if j < mid {
                        assert(lex_lt(items[j].0, items[mid as int].0));
                        lemma_lex_transitive(items[j].0, items[mid as int].0, key@);
                    }
                }
                lo = mid + 1;
            } else if bytes_lt(key, name) {
                assert forall|j: int| mid <= j < items.len() implies lex_lt(key@, #[trigger] items[j].0) by {
                    if j > mid {
                        assert(lex_lt(items[mid as int].0, items[j].0));
                        lemma_lex_transitive(key@, items[mid as int].0, items[j].0);
                    }
                }
                hi = mid;
            } else {
                proof {
                    lemma_lex_total(name@, key@);
                    lemma_to_map_value(items, mid as int);
                    assert forall|j: int| 0 <= j < mid implies lex_lt(#[trigger] items[j].0, key@) by {
                        assert(lex_lt(items[j].0, items[mid as int].0));
                    }
                    assert forall|j: int| mid < j < items.len() implies lex_lt(key@, #[trigger] items[j].0) by {
                        assert(lex_lt(items[mid as int].0, items[j].0));
                    }
                }
                return (true, mid);
            }
        }
        proof {
            lemma_to_map_dom(items, key@);
            if has_key(items, key@) {
                let i = choose|i: int| 0 <= i < items.len() && #[trigger] items[i].0 == key@;
                lemma_lex_irreflexive(key@);
            }
        }
        (false, lo)
    }

    /// The entry stored under exactly `key`, if there is one.
    pub fn get(&self, key: &[u8]) -> (r: Option<&CpioEntry>)
        requires
            self.wf(),
        ensures
            r is Some <==> self@.dom().contains(key@),
            r matches Some(e) ==> e@ == self@[key@],
    {
        let (found, at) = self.search(key);
        if found {
            proof {
                lemma_to_map_value(self.items(), at as int);
            }
            Some(&self.entries[at].1)
        } else {
            None
        }
    }

    /// Stores `entry` under `name`, in place of what was stored there.
    pub fn insert(&mut self, name: String, entry: CpioEntry)
        requires
            old(self).wf(),
        ensures
            final(self).wf(),
            final(self)@ == old(self)@.insert(encode_utf8(name@), entry@),
    {
        let ghost before = self.items();
        let ghost key = encode_utf8(name@);
        let (found, at) = self.search(name.as_str().as_bytes());
        if found {
            proof {
                lemma_update_item(before, at as int, entry@);
            }
            self.entries[at] = (name, entry);
            assert(self.items() =~= before.update(at as int, (key, entry@)));
        } else {
            proof {
                lemma_insert_item(before, at as int, key, entry@);
            }
            self.entries.insert(at, (name, entry));
            assert(self.items() =~= before.insert(at as int, (key, entry@)));
        }
    }

    /// Takes out the entry stored under exactly `key` and returns it.
    pub fn remove(&mut self, key: &[u8]) -> (r: Option<CpioEntry>)
        requires
            old(self).wf(),
        ensures
            final(self).wf(),
            final(self)@ == old(self)@.remove(key@),
            r is Some <==> old(self)@.dom().contains(key@),
            r matches Some(e) ==> e@ == old(self)@[key@],
    {
        let ghost before = self.items();
        let (found, at) = self.search(key);
        if found {
            proof {
                lemma_remove_item(before, at as int);
                lemma_to_map_value(before, at as int);
            }
            let (_, entry) = self.entries.remove(at);
            assert(self.items() =~= before.remove(at as int));
            Some(entry)
        } else {
            assert(self@ =~= self@.remove(key@));
            None
        }
    }

    /// Takes out every entry whose name starts with `prefix`.
    pub fn remove_under(&mut self, prefix: &[u8])
        requires
            old(self).wf(),
        ensures
            final(self).wf(),
            final(self)@ == old(self)@.remove_keys(names_under(prefix@)),
    {
        let ghost before = self.items();
        let ghost gone = names_under(prefix@);
        let ghost mut done: int = 0;
        let mut i: usize = 0;
        assert(before.take(0) =~= Seq::<(Seq<u8>, EntryView)>::empty());
        assert(before.skip(0) =~= before);
        assert(self.items() =~= keep_outside(before.take(0), gone) + before.skip(0));
        while i < self.entries.len()
            invariant
                0 <= done <= before.len(),
                i == keep_outside(before.take(done), gone).len(),
                self.items() == keep_outside(before.take(done), gone) + before.skip(done),
                gone == names_under(prefix@),
            decreases before.len() - done,
        {
            let ghost cur = self.items();
            let ghost kept = keep_outside(before.take(done), gone);
            proof {
                assert(cur[i as int] == before.skip(done)[0]);
                assert(before.take(done + 1).drop_last() =~= before.take(done));
                assert(before.take(done + 1).last() == before[done]);
            }
            if starts_with(self.entries[i].0.as_str().as_bytes(), prefix) {
                self.entries.remove(i);
                assert(self.items() =~= cur.remove(i as int));
                assert(cur.remove(i as int) =~= kept + before.skip(done + 1));
            } else {
                assert(cur =~= kept.push(before[done]) + before.skip(done + 1));
                i = i + 1;
            }
            proof {
                done = done + 1;
            }
        }
        proof {
            assert(done == before.len()) by {
                assert(self.items().len() == i + (before.len() - done));
            }
            assert(before.take(done) =~= before);
            assert(self.items() =~= keep_outside(before, gone));
            lemma_keep_outside_sorted(before, gone);
            lemma_keep_outside_map(before, gone);
        }
    }
}

} // verus!
