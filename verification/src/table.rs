//! The table of an archive: entries by name, in the order in which they
//! were put in. It is an `indexmap::IndexMap`; the functions here say what
//! its operations do to the sequence of pairs that it holds.

use crate::directory::{Directory, DirectoryView};
use crate::zip::{Cache, Parser};
use indexmap::IndexMap;
use vstd::prelude::*;

verus! {

/// `indexmap::IndexMap`, as a type whose inside the verifier does not see.
#[verifier::external_type_specification]
#[verifier::external_body]
#[verifier::reject_recursive_types(K)]
#[verifier::reject_recursive_types(V)]
#[verifier::reject_recursive_types(S)]
pub struct ExIndexMap<K, V, S>(IndexMap<K, V, S>);

/// `IndexMap::clone`: a table of its own. Nothing is said of what it holds:
/// that rests on how keys and values copy themselves.
pub assume_specification<K: Clone, V: Clone, S: Clone>[ <IndexMap<K, V, S> as Clone>::clone ](
    table: &IndexMap<K, V, S>,
) -> (copy: IndexMap<K, V, S>);

/// What a table holds: names and entries, in order.
pub type Entries = Seq<(Seq<char>, DirectoryView)>;

/// The pairs that a table of an archive holds, in the table's order.
pub uninterp spec fn entries(table: IndexMap<String, Directory<Parser>>) -> Seq<
    (Seq<char>, DirectoryView),
>;

/// The pairs that a table of a snapshot holds, in the table's order.
pub uninterp spec fn snapshot_entries(table: IndexMap<String, Directory<Cache>>) -> Seq<
    (Seq<char>, DirectoryView),
>;

/// `name` is the name of a pair.
pub open spec fn contains_name(s: Entries, name: Seq<char>) -> bool {
    exists|i: int| 0 <= i < s.len() && (#[trigger] s[i]).0 == name
}

/// A place at which `name` stands, where it stands anywhere.
pub open spec fn index_of(s: Entries, name: Seq<char>) -> int {
    choose|i: int| 0 <= i < s.len() && (#[trigger] s[i]).0 == name
}

/// No name stands twice.
pub open spec fn distinct_names(s: Entries) -> bool {
    forall|i: int, j: int| 0 <= i < j < s.len() ==> (#[trigger] s[i]).0 != (#[trigger] s[j]).0
}

/// The pairs after `entry` was put in under `name`: in the place of the
/// pair of that name, or behind all others where no pair has it.
pub open spec fn inserted(s: Entries, name: Seq<char>, entry: DirectoryView) -> Entries {
    if contains_name(s, name) {
        s.update(index_of(s, name), (name, entry))
    } else {
        s.push((name, entry))
    }
}

/// The pairs after the pair of `name` was taken out: those behind it move
/// up by one place, and all keep their order.
pub open spec fn removed(s: Entries, name: Seq<char>) -> Entries {
    if contains_name(s, name) {
        s.remove(index_of(s, name))
    } else {
        s
    }
}

/// The pairs that putting in `pairs` one after the other leaves.
pub open spec fn collected(pairs: Seq<DirectoryView>) -> Entries
    decreases pairs.len(),
{
    if pairs.len() == 0 {
        Seq::empty()
    } else {
        inserted(collected(pairs.drop_last()), pairs.last().file_name, pairs.last())
    }
}

/// `IndexMap::new`: a table that holds nothing.
#[verifier::external_body]
pub(crate) fn table_new() -> (table: IndexMap<String, Directory<Parser>>)
    ensures
        entries(table) == Seq::<(Seq<char>, DirectoryView)>::empty(),
{
    IndexMap::new()
}

/// `IndexMap::len`: the number of pairs.
#[verifier::external_body]
pub(crate) fn table_len(table: &IndexMap<String, Directory<Parser>>) -> (n: usize)
    ensures
        n == entries(*table).len(),
{
    table.len()
}

/// `IndexMap::get_index_of`: the place of the pair of `name`, if there is one.
#[verifier::external_body]
pub(crate) fn table_index_of(table: &IndexMap<String, Directory<Parser>>, name: &str) -> (r:
    Option<usize>)
    ensures
        r matches Some(i) ==> i < entries(*table).len() && entries(*table)[i as int].0 == name@,
        r is None ==> !contains_name(entries(*table), name@),
{
    table.get_index_of(name)
}

/// `IndexMap::get_index`: the pair at place `i`.
#[verifier::external_body]
pub(crate) fn table_get(table: &IndexMap<String, Directory<Parser>>, i: usize) -> (r: (
    &String,
    &Directory<Parser>,
))
    requires
        i < entries(*table).len(),
    ensures
        r.0@ == entries(*table)[i as int].0,
        r.1@ == entries(*table)[i as int].1,
{
    table.get_index(i).unwrap()
}

/// `IndexMap::get_index_mut`: the entry at place `i`, to be changed where it
/// stands. Name and place stay; no other pair changes.
#[verifier::external_body]
pub(crate) fn table_get_mut(table: &mut IndexMap<String, Directory<Parser>>, i: usize) -> (r:
    &mut Directory<Parser>)
    requires
        i < entries(*old(table)).len(),
    ensures
        r@ == entries(*old(table))[i as int].1,
        entries(*final(table)) == entries(*old(table)).update(
            i as int,
            (entries(*old(table))[i as int].0, final(r)@),
        ),
{
    table.get_index_mut(i).unwrap().1
}

/// `IndexMap::insert`: puts `entry` in under `name`. Where a pair has that
/// name, the entry takes the place of that pair's; otherwise the pair goes
/// behind all others.
#[verifier::external_body]
pub(crate) fn table_insert(
    table: &mut IndexMap<String, Directory<Parser>>,
    name: String,
    entry: Directory<Parser>,
)
    ensures
        entries(*final(table)) == inserted(entries(*old(table)), name@, entry@),
{
    table.insert(name, entry);
}

/// `IndexMap::shift_remove`: takes out the pair of `name`, if there is one.
/// The pairs behind it move up by one place; all keep their order.
#[verifier::external_body]
pub(crate) fn table_shift_remove(table: &mut IndexMap<String, Directory<Parser>>, name: &str)
    ensures
        entries(*final(table)) == removed(entries(*old(table)), name@),
{
    table.shift_remove(name);
}

/// `IndexMap::new`: a table that holds nothing.
#[verifier::external_body]
pub(crate) fn snapshot_new() -> (table: IndexMap<String, Directory<Cache>>)
    ensures
        snapshot_entries(table) == Seq::<(Seq<char>, DirectoryView)>::empty(),
{
    IndexMap::new()
}

/// `IndexMap::len`: the number of pairs.
#[verifier::external_body]
pub(crate) fn snapshot_len(table: &IndexMap<String, Directory<Cache>>) -> (n: usize)
    ensures
        n == snapshot_entries(*table).len(),
{
    table.len()
}

/// `IndexMap::get_index`: the pair at place `i`.
#[verifier::external_body]
pub(crate) fn snapshot_get(table: &IndexMap<String, Directory<Cache>>, i: usize) -> (r: (
    &String,
    &Directory<Cache>,
))
    requires
        i < snapshot_entries(*table).len(),
    ensures
        r.0@ == snapshot_entries(*table)[i as int].0,
        r.1@ == snapshot_entries(*table)[i as int].1,
{
    table.get_index(i).unwrap()
}

/// `IndexMap::insert`: puts `entry` in under `name`. Where a pair has that
/// name, the entry takes the place of that pair's; otherwise the pair goes
/// behind all others.
#[verifier::external_body]
pub(crate) fn snapshot_insert(
    table: &mut IndexMap<String, Directory<Cache>>,
    name: String,
    entry: Directory<Cache>,
)
    ensures
        snapshot_entries(*final(table)) == inserted(snapshot_entries(*old(table)), name@, entry@),
{
    table.insert(name, entry);
}

/// `IndexMap::into_iter` and `collect`, with each entry turned into its
/// snapshot form on the way: a table of the same pairs in the same order.
/// As in every map, no name stands twice in it.
#[verifier::external_body]
pub(crate) fn table_into_cache(table: IndexMap<String, Directory<Parser>>) -> (r: IndexMap<
    String,
    Directory<Cache>,
>)
    ensures
        snapshot_entries(r) == entries(table),
        distinct_names(snapshot_entries(r)),
{
    table.into_iter().map(|(name, entry)| (name, entry.into_cache())).collect()
}

/// `IndexMap::into_iter` and `collect`, with each entry turned into its
/// archive form on the way: a table of the same pairs in the same order.
/// As in every map, no name stands twice in it.
#[verifier::external_body]
pub(crate) fn table_into_parser(table: IndexMap<String, Directory<Cache>>) -> (r: IndexMap<
    String,
    Directory<Parser>,
>)
    ensures
        entries(r) == snapshot_entries(table),
        distinct_names(entries(r)),
{
    table.into_iter().map(|(name, entry)| (name, entry.to_parser())).collect()
}

/// The pairs that putting in `pairs` one after the other leaves, each
/// under the name that it comes with.
pub open spec fn collected_pairs(pairs: Entries) -> Entries
    decreases pairs.len(),
{
    if pairs.len() == 0 {
        Seq::empty()
    } else {
        inserted(collected_pairs(pairs.drop_last()), pairs.last().0, pairs.last().1)
    }
}

/// Pairs with names that are all apart are what putting them in one after
/// the other leaves.
pub proof fn lemma_collected_pairs(pairs: Entries)
    requires
        distinct_names(pairs),
    ensures
        collected_pairs(pairs) == pairs,
    decreases pairs.len(),
{
    if pairs.len() > 0 {
        let front = pairs.drop_last();
        assert forall|i: int, j: int| 0 <= i < j < front.len() implies (#[trigger] front[i]).0 != (
        #[trigger] front[j]).0 by {
            assert(front[i] == pairs[i]);
            assert(front[j] == pairs[j]);
        }
        lemma_collected_pairs(front);
        if contains_name(front, pairs.last().0) {
            let k = index_of(front, pairs.last().0);
            assert(front[k] == pairs[k]);
            assert(pairs[k].0 != pairs[pairs.len() - 1].0);
        }
        assert(front.push(pairs.last()) =~= pairs);
    }
}

/// Putting in keeps the names apart, and puts the pair where `inserted` says.
pub proof fn lemma_inserted(s: Entries, name: Seq<char>, entry: DirectoryView)
    requires
        distinct_names(s),
    ensures
        distinct_names(inserted(s, name, entry)),
        contains_name(inserted(s, name, entry), name),
        inserted(s, name, entry)[index_of(inserted(s, name, entry), name)] == (name, entry),
        contains_name(s, name) ==> inserted(s, name, entry).len() == s.len(),
        !contains_name(s, name) ==> inserted(s, name, entry).len() == s.len() + 1,
{
    let t = inserted(s, name, entry);
    if contains_name(s, name) {
        let i = index_of(s, name);
        assert(t[i].0 == name);
    } else {
        assert(t[s.len() as int].0 == name);
        assert forall|i: int, j: int| 0 <= i < j < t.len() implies (#[trigger] t[i]).0 != (
        #[trigger] t[j]).0 by {
            if j == s.len() {
                assert(s[i].0 != name);
            }
        }
    }
    let k = index_of(t, name);
    assert(t[k].0 == name);
    if contains_name(s, name) {
        let i = index_of(s, name);
        if k != i {
            assert(s[k].0 == name);
            assert(s[i].0 == name);
        }
    } else {
        if k != s.len() {
            assert(s[k].0 == name);
        }
    }
}

/// Putting two entries in under one name leaves one of them: the table
/// holds the name once, with the entry that came second, and is as long
/// as it was after the first.
pub proof fn lemma_inserted_twice(
    s: Entries,
    name: Seq<char>,
    first: DirectoryView,
    second: DirectoryView,
)
    requires
        distinct_names(s),
    ensures
        ({
            let once = inserted(s, name, first);
            let twice = inserted(once, name, second);
            &&& twice.len() == once.len()
            &&& distinct_names(twice)
            &&& forall|i: int|
                0 <= i < twice.len() ==> ((#[trigger] twice[i]).0 == name <==> i == index_of(
                    twice,
                    name,
                ))
            &&& twice[index_of(twice, name)] == (name, second)
            &&& twice == inserted(s, name, second)
        }),
{
    let once = inserted(s, name, first);
    let twice = inserted(once, name, second);
    lemma_inserted(s, name, first);
    lemma_inserted(once, name, second);
    let k = index_of(twice, name);
    assert forall|i: int| 0 <= i < twice.len() implies ((#[trigger] twice[i]).0 == name <==> i
        == k) by {
        if twice[i].0 == name && i != k {
            if i < k {
                assert(twice[i].0 != twice[k].0);
            } else {
                assert(twice[k].0 != twice[i].0);
            }
        }
    }
    let a = index_of(once, name);
    assert(once[a].0 == name);
    if contains_name(s, name) {
        let b = index_of(s, name);
        assert(s[b].0 == name);
        if a != b {
            assert(once[b].0 == name);
            if a < b {
                assert(once[a].0 != once[b].0);
            } else {
                assert(once[b].0 != once[a].0);
            }
        }
        assert(twice =~= inserted(s, name, second));
    } else {
        if a != s.len() {
            assert(once[a] == s[a]);
            assert(s[a].0 == name);
        }
        assert(twice =~= inserted(s, name, second));
    }
}

/// Taking out keeps the names apart and the order of the pairs that stay,
/// and the name is gone.
pub proof fn lemma_removed(s: Entries, name: Seq<char>)
    requires
        distinct_names(s),
    ensures
        distinct_names(removed(s, name)),
        !contains_name(removed(s, name), name),
        contains_name(s, name) ==> {
            &&& removed(s, name).len() == s.len() - 1
            &&& forall|k: int|
                0 <= k < index_of(s, name) ==> (#[trigger] removed(s, name)[k]) == s[k]
            &&& forall|k: int|
                index_of(s, name) <= k < s.len() - 1 ==> (#[trigger] removed(s, name)[k]) == s[k
                    + 1]
        },
        !contains_name(s, name) ==> removed(s, name) == s,
{
    let t = removed(s, name);
    if contains_name(s, name) {
        let i = index_of(s, name);
        assert(s[i].0 == name);
        s.remove_ensures(i);
        assert forall|k: int| 0 <= k < t.len() implies (#[trigger] t[k]) == s[if k < i {
            k
        } else {
            k + 1
        }] by {}
        assert forall|a: int, b: int| 0 <= a < b < t.len() implies (#[trigger] t[a]).0 != (
        #[trigger] t[b]).0 by {
            let sa = if a < i {
                a
            } else {
                a + 1
            };
            let sb = if b < i {
                b
            } else {
                b + 1
            };
            assert(t[a] == s[sa]);
            assert(t[b] == s[sb]);
            assert(s[sa].0 != s[sb].0);
        }
        if contains_name(t, name) {
            let k = index_of(t, name);
            let sk = if k < i {
                k
            } else {
                k + 1
            };
            assert(t[k] == s[sk]);
            if sk < i {
                assert(s[sk].0 != s[i].0);
            } else {
                assert(s[i].0 != s[sk].0);
            }
        }
    }
}

} // verus!
