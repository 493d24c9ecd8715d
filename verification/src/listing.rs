//! The listing of a directory: directories first, each group by name.

use vstd::multiset::Multiset;
use vstd::prelude::*;
use vstd::relations::{sorted_by, total_ordering};
use vstd::seq_lib::{lemma_sorted_unique, to_multiset_build, to_multiset_insert, to_multiset_len};
use vstd::string::*;
use crate::text::{
    str_le, text_le, text_le_antisymmetric, text_le_reflexive, text_le_total, text_le_transitive,
    texts,
};

verus! {

/// One entry of a directory: its name, and whether it is a directory itself.
#[derive(Debug, Clone, PartialEq, Eq)]
pub struct DirectoryEntry {
    pub name: String,
    pub is_directory: bool,
}

/// What a `DirectoryEntry` stands for.
#[verifier::ext_equal]
pub struct EntryView {
    pub name: Seq<char>,
    pub is_directory: bool,
}

impl View for DirectoryEntry {
    type V = EntryView;

    open spec fn view(&self) -> EntryView {
        EntryView { name: self.name@, is_directory: self.is_directory }
    }
}

/// An entry of a directory could not be read or told apart. Such an entry is
/// left out of the listing.
#[derive(Debug, Clone, Copy, PartialEq, Eq)]
pub struct EntryUnreadable;

/// A directory could not be enumerated.
#[derive(Debug, Clone, Copy, PartialEq, Eq)]
pub struct DirectoryUnreadable;

/// What the enumeration of a directory found: an entry or a failure for
/// each thing in it, or a failure for the directory as a whole.
pub type Enumeration = Result<Vec<Result<DirectoryEntry, EntryUnreadable>>, DirectoryUnreadable>;

/// The order of a listing: a directory comes before a file, and two entries
/// of one kind go by `text_le` on their names.
pub open spec fn lists_before(a: EntryView, b: EntryView) -> bool {
    if a.is_directory != b.is_directory {
        a.is_directory
    } else {
        text_le(a.name, b.name)
    }
}

/// The views of a sequence of entries.
pub open spec fn entry_views(entries: Seq<DirectoryEntry>) -> Seq<EntryView> {
    entries.map_values(|e: DirectoryEntry| e@)
}

/// The entries that an enumeration found readable, in the order in which it
/// found them.
pub open spec fn readable_entries(found: Seq<Result<DirectoryEntry, EntryUnreadable>>) -> Seq<
    EntryView,
>
    decreases found.len(),
{
    if found.len() == 0 {
        Seq::empty()
    } else {
        let front = readable_entries(found.drop_last());
        match found.last() {
            Ok(entry) => front.push(entry@),
            Err(_) => front,
        }
    }
}

/// No entry of `listing` stands before one that `lists_before` puts ahead of it.
pub open spec fn in_listing_order(listing: Seq<EntryView>) -> bool {
    forall|i: int, j: int| 0 <= i < j < listing.len() ==> lists_before(listing[i], listing[j])
}

/// `listing` is the listing of a directory in which `found` was found: the
/// same entries, each as often, in listing order.
pub open spec fn is_listing_of(listing: Seq<EntryView>, found: Seq<EntryView>) -> bool {
    &&& in_listing_order(listing)
    &&& listing.to_multiset() == found.to_multiset()
}

/// The listing of a directory in which `found` was found. There is one, and
/// only one: see `listing_exists` and `listing_is_unique`.
pub open spec fn directory_listing(found: Seq<EntryView>) -> Seq<EntryView> {
    choose|listing: Seq<EntryView>| is_listing_of(listing, found)
}

/// The name under which an entry is shown: a directory with a `/` behind it.
pub open spec fn shown_name(entry: EntryView) -> Seq<char> {
    if entry.is_directory {
        entry.name.push('/')
    } else {
        entry.name
    }
}

/// The names under which the entries of a listing are shown, in its order.
pub open spec fn shown_names(listing: Seq<EntryView>) -> Seq<Seq<char>> {
    listing.map_values(|e: EntryView| shown_name(e))
}

/// `lists_before` orders all entries: any two compare, each way only where
/// they are the same, and the order passes along a chain.
pub proof fn lists_before_is_total_order()
    ensures
        forall|a: EntryView| lists_before(a, a),
        forall|a: EntryView, b: EntryView| lists_before(a, b) || lists_before(b, a),
        forall|a: EntryView, b: EntryView|
            lists_before(a, b) && lists_before(b, a) ==> a == b,
        forall|a: EntryView, b: EntryView, c: EntryView|
            lists_before(a, b) && lists_before(b, c) ==> lists_before(a, c),
{
    assert forall|a: EntryView| lists_before(a, a) by {
        text_le_reflexive(a.name);
    }
    assert forall|a: EntryView, b: EntryView| lists_before(a, b) || lists_before(b, a) by {
        text_le_total(a.name, b.name);
    }
    assert forall|a: EntryView, b: EntryView|
        lists_before(a, b) && lists_before(b, a) implies a == b by {
        text_le_antisymmetric(a.name, b.name);
    }
    assert forall|a: EntryView, b: EntryView, c: EntryView|
        lists_before(a, b) && lists_before(b, c) implies lists_before(a, c) by {
        if a.is_directory == b.is_directory && b.is_directory == c.is_directory {
            text_le_transitive(a.name, b.name, c.name);
        }
    }
}

/// Two listings of the same entries are the same sequence, in whatever
/// order the entries were found.
pub proof fn listing_is_unique(
    first: Seq<EntryView>,
    second: Seq<EntryView>,
    found_first: Seq<EntryView>,
    found_second: Seq<EntryView>,
)
    requires
        is_listing_of(first, found_first),
        is_listing_of(second, found_second),
        found_first.to_multiset() == found_second.to_multiset(),
    ensures
        first == second,
{
    let leq = |a: EntryView, b: EntryView| lists_before(a, b);
    lists_before_is_total_order();
    assert(total_ordering(leq));
    assert(sorted_by(first, leq));
    assert(sorted_by(second, leq));
    lemma_sorted_unique(first, second, leq);
}

/// Whatever was found has a listing.
pub proof fn listing_exists(found: Seq<EntryView>)
    ensures
        is_listing_of(directory_listing(found), found),
{
    let leq = |a: EntryView, b: EntryView| lists_before(a, b);
    lists_before_is_total_order();
    assert(total_ordering(leq));
    found.lemma_sort_by_ensures(leq);
    let sorted = found.sort_by(leq);
    assert(sorted_by(sorted, leq));
    assert(in_listing_order(sorted)) by {
        assert forall|i: int, j: int| 0 <= i < j < sorted.len() implies lists_before(
            sorted[i],
            sorted[j],
        ) by {
            assert(leq(sorted[i], sorted[j]));
        }
    }
    assert(is_listing_of(sorted, found));
}

/// Listing a directory again gives the same sequence as long as the
/// directory holds the same entries, in whatever order they are found.
pub proof fn listing_ignores_enumeration_order(first: Seq<EntryView>, second: Seq<EntryView>)
    requires
        first.to_multiset() == second.to_multiset(),
    ensures
        directory_listing(first) == directory_listing(second),
        shown_names(directory_listing(first)) == shown_names(directory_listing(second)),
{
    listing_exists(first);
    listing_exists(second);
    listing_is_unique(directory_listing(first), directory_listing(second), first, second);
}

/// A sequence without entries holds no entry at all.
proof fn nothing_listed(entries: Seq<EntryView>)
    requires
        entries.len() == 0,
    ensures
        entries.to_multiset() == Multiset::<EntryView>::empty(),
{
    broadcast use vstd::multiset::group_multiset_axioms;

    to_multiset_len(entries);
    assert(entries.to_multiset() =~= Multiset::<EntryView>::empty());
}

/// Decides `lists_before`.
pub fn entry_precedes(a: &DirectoryEntry, b: &DirectoryEntry) -> (r: bool)
    ensures
        r == lists_before(a@, b@),
{
    if a.is_directory != b.is_directory {
        a.is_directory
    } else {
        str_le(a.name.as_str(), b.name.as_str())
    }
}

/// Puts `entry` into `listing` at its place in listing order.
fn insert_entry(listing: &mut Vec<DirectoryEntry>, entry: DirectoryEntry)
    requires
        in_listing_order(entry_views(old(listing)@)),
    ensures
        in_listing_order(entry_views(final(listing)@)),
        entry_views(final(listing)@).to_multiset() == entry_views(old(listing)@).to_multiset().insert(
            entry@,
        ),
{
    let ghost before = entry_views(listing@);
    let mut at: usize = 0;
    while at < listing.len() && entry_precedes(&listing[at], &entry)
        invariant
            at <= listing.len(),
            entry_views(listing@) == before,
            forall|k: int| 0 <= k < at ==> lists_before(before[k], entry@),
        decreases listing.len() - at,
    {
        at = at + 1;
    }
    listing.insert(at, entry);
    proof {
        let after = entry_views(listing@);
        assert(after =~= before.insert(at as int, entry@));
        to_multiset_insert(before, at as int, entry@);
        lists_before_is_total_order();
        assert forall|i: int, j: int| 0 <= i < j < after.len() implies lists_before(
            after[i],
            after[j],
        ) by {
            if j == at {
                assert(after[i] == before[i]);
            } else if i == at {
                assert(after[j] == before[j - 1]);
                assert(lists_before(entry@, before[at as int]));
                assert(lists_before(before[at as int], before[j - 1]) || at == j - 1);
            } else {
                let bi = if i < at { i } else { i - 1 };
                let bj = if j < at { j } else { j - 1 };
                assert(after[i] == before[bi]);
                assert(after[j] == before[bj]);
            }
        }
    }
}

/// Lists a directory from what its enumeration found.
///
/// Fails where the directory could not be enumerated. Otherwise every entry
/// that was found readable is listed once for each time it was found, an
/// unreadable one is left out, and the order is listing order, whatever the
/// order of the enumeration was.
pub fn list(found: Enumeration) -> (r: Result<Vec<DirectoryEntry>, DirectoryUnreadable>)
    ensures
        match found {
            Ok(entries) => r matches Ok(listing) && entry_views(listing@) == directory_listing(
                readable_entries(entries@),
            ),
            Err(_) => r is Err,
        },
{
    let mut rest = match found {
        Ok(entries) => entries,
        Err(_) => {
            return Err(DirectoryUnreadable);
        },
    };
    let ghost all = rest@;
    let mut listing: Vec<DirectoryEntry> = Vec::new();
    proof {
        nothing_listed(entry_views(listing@));
        assert(entry_views(listing@).to_multiset().add(readable_entries(rest@).to_multiset())
            =~= readable_entries(all).to_multiset());
    }
    while rest.len() > 0
        invariant
            in_listing_order(entry_views(listing@)),
            entry_views(listing@).to_multiset().add(readable_entries(rest@).to_multiset())
                == readable_entries(all).to_multiset(),
        decreases rest.len(),
    {
        let ghost before = rest@;
        let item = rest.pop();
        proof {
            assert(before.drop_last() =~= rest@);
        }
        if let Some(Ok(entry)) = item {
            proof {
                to_multiset_build(readable_entries(rest@), entry@);
            }
            let ghost listed = entry_views(listing@).to_multiset();
            insert_entry(&mut listing, entry);
            proof {
                assert(listed.insert(entry@).add(readable_entries(rest@).to_multiset())
                    =~= listed.add(readable_entries(rest@).to_multiset().insert(entry@)));
            }
        }
    }
    proof {
        nothing_listed(readable_entries(rest@));
        assert(entry_views(listing@).to_multiset().add(Multiset::empty()) =~= entry_views(
            listing@,
        ).to_multiset());
        listing_exists(readable_entries(all));
        listing_is_unique(
            entry_views(listing@),
            directory_listing(readable_entries(all)),
            readable_entries(all),
            readable_entries(all),
        );
    }
    Ok(listing)
}

/// The names to show for a listing.
pub fn entry_names(listing: &Vec<DirectoryEntry>) -> (names: Vec<String>)
    ensures
        texts(names@) == shown_names(entry_views(listing@)),
{
    let mut names: Vec<String> = Vec::new();
    let mut i: usize = 0;
    while i < listing.len()
        invariant
            i <= listing.len(),
            texts(names@) == shown_names(entry_views(listing@)).take(i as int),
        decreases listing.len() - i,
    {
        let mut name: String = listing[i].name.clone();
        if listing[i].is_directory {
            name.push('/');
        }
        let ghost shown = name@;
        let ghost named = texts(names@);
        names.push(name);
        proof {
            let all = shown_names(entry_views(listing@));
            assert(shown == all[i as int]);
            assert(texts(names@) =~= named.push(shown));
            assert(all.take(i + 1) =~= all.take(i as int).push(all[i as int]));
        }
        i = i + 1;
    }
    proof {
        assert(shown_names(entry_views(listing@)).take(listing.len() as int) =~= shown_names(
            entry_views(listing@),
        ));
    }
    names
}

} // verus!
