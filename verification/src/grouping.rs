//! Named items in the order of their arrival, grouped by name.

use vstd::prelude::*;

use crate::players::{first_seen, with_name, with_value};
use crate::seq_facts::{lemma_filter_empty, lemma_filter_push, lemma_map_push};

verus! {

/// An item that arrived under a player's name.
pub struct Named<A> {
    pub name: Seq<char>,
    pub item: A,
}

/// Selects the entries of one player.
pub open spec fn named<A>(name: Seq<char>) -> spec_fn(Named<A>) -> bool {
    |e: Named<A>| e.name == name
}

/// The name of an entry.
pub open spec fn name_of<A>() -> spec_fn(Named<A>) -> Seq<char> {
    |e: Named<A>| e.name
}

/// The item of an entry.
pub open spec fn item_of<A>() -> spec_fn(Named<A>) -> A {
    |e: Named<A>| e.item
}

/// The players that occur in `entries`, each once, in the order of their
/// first entry.
pub open spec fn players_of<A>(entries: Seq<Named<A>>) -> Seq<Seq<char>> {
    first_seen(entries.map_values(name_of()))
}

/// The items that arrived under `name`, in the order of their arrival.
pub open spec fn items_of<A>(entries: Seq<Named<A>>, name: Seq<char>) -> Seq<A> {
    entries.filter(named(name)).map_values(item_of())
}

/// The entry of each name with the value at the name's index.
pub open spec fn entries_of<A>(names: Seq<Seq<char>>, values: Seq<A>) -> Seq<Named<A>> {
    Seq::new(names.len(), |i: int| Named { name: names[i], item: values[i] })
}

/// The item that arrived last under `name`.
pub open spec fn last_of<A>(entries: Seq<Named<A>>) -> spec_fn(Seq<char>) -> A {
    |name: Seq<char>| items_of(entries, name).last()
}

/// For each player, in the order of `players_of`, the item that arrived
/// last under the player's name.
pub open spec fn last_by_player<A>(entries: Seq<Named<A>>) -> Seq<A> {
    players_of(entries).map_values(last_of(entries))
}

/// For each player, in the order of `players_of`, the items that arrived
/// under the player's name.
pub open spec fn items_by_player<A>(entries: Seq<Named<A>>) -> Seq<Seq<A>> {
    players_of(entries).map_values(|name: Seq<char>| items_of(entries, name))
}

/// No player occurs in no entries.
pub proof fn lemma_players_of_empty<A>()
    ensures
        players_of(Seq::<Named<A>>::empty()) == Seq::<Seq<char>>::empty(),
        forall|name: Seq<char>| #[trigger]
            items_of(Seq::<Named<A>>::empty(), name) == Seq::<A>::empty(),
{
    assert(Seq::<Named<A>>::empty().map_values(name_of()) =~= Seq::<Seq<char>>::empty());
    assert forall|name: Seq<char>| #[trigger]
        items_of(Seq::<Named<A>>::empty(), name) == Seq::<A>::empty() by {
        lemma_filter_empty(named::<A>(name));
        assert(Seq::<Named<A>>::empty().map_values(item_of()) =~= Seq::<A>::empty());
    }
}

/// One more entry adds its player, unless the player occurred before.
pub proof fn lemma_players_of_push<A>(entries: Seq<Named<A>>, entry: Named<A>)
    ensures
        players_of(entries.push(entry)) == with_name(players_of(entries), entry.name),
{
    let names = entries.map_values(name_of());
    lemma_map_push(entries, entry, name_of());
    assert(names.push(entry.name).drop_last() =~= names);
}

/// One more entry extends the items of its player and of no other.
pub proof fn lemma_items_of_push<A>(entries: Seq<Named<A>>, entry: Named<A>, name: Seq<char>)
    ensures
        items_of(entries.push(entry), name) == if entry.name == name {
            items_of(entries, name).push(entry.item)
        } else {
            items_of(entries, name)
        },
{
    lemma_filter_push(entries, entry, named(name));
    if entry.name == name {
        lemma_map_push(entries.filter(named(name)), entry, item_of());
    }
}

/// The first-seen names are the names that occur, each once.
pub proof fn lemma_first_seen(names: Seq<Seq<char>>)
    ensures
        first_seen(names).no_duplicates(),
        forall|name: Seq<char>| #[trigger] first_seen(names).contains(name) <==> names.contains(name),
    decreases names.len(),
{
    if names.len() > 0 {
        let earlier = names.drop_last();
        lemma_first_seen(earlier);
        let before = first_seen(earlier);
        let after = first_seen(names);
        assert forall|name: Seq<char>| #[trigger] after.contains(name) <==> names.contains(name) by {
            if names.contains(name) {
                let i = choose|i: int| 0 <= i < names.len() && names[i] == name;
                if i < names.len() - 1 {
                    assert(earlier[i] == name);
                    assert(before.contains(name));
                    let k = choose|k: int| 0 <= k < before.len() && before[k] == name;
                    assert(after[k] == name);
                } else {
                    if before.contains(name) {
                    } else {
                        assert(after[after.len() - 1] == name);
                    }
                }
            }
            if after.contains(name) {
                let k = choose|k: int| 0 <= k < after.len() && after[k] == name;
                if k < before.len() {
                    assert(before.contains(name));
                    let i = choose|i: int| 0 <= i < earlier.len() && earlier[i] == name;
                    assert(names[i] == name);
                } else {
                    assert(names[names.len() - 1] == name);
                }
            }
        }
    }
}

/// A player has items exactly if the player occurs.
pub proof fn lemma_items_of_player<A>(entries: Seq<Named<A>>, name: Seq<char>)
    ensures
        players_of(entries).contains(name) <==> items_of(entries, name).len() > 0,
    decreases entries.len(),
{
    if entries.len() == 0 {
        lemma_players_of_empty::<A>();
        assert(entries =~= Seq::<Named<A>>::empty());
    } else {
        let earlier = entries.drop_last();
        let entry = entries.last();
        assert(entries =~= earlier.push(entry));
        lemma_items_of_player(earlier, name);
        lemma_players_of_push(earlier, entry);
        lemma_items_of_push(earlier, entry, name);
        let before = players_of(earlier);
        if before.contains(name) {
            let k = choose|k: int| 0 <= k < before.len() && before[k] == name;
            assert(with_name(before, entry.name)[k] == name);
        } else if entry.name == name {
            let after = before.push(name);
            assert(after[after.len() - 1] == name);
        } else {
            let after = with_name(before, entry.name);
            if after.contains(name) {
                let k = choose|k: int| 0 <= k < after.len() && after[k] == name;
                assert(before[k] == name);
            }
        }
    }
}

/// Names and values that hold the last item of every player hold it still
/// after one more entry was written over them.
pub proof fn lemma_last_written<A>(
    names: Seq<Seq<char>>,
    values: Seq<A>,
    entries: Seq<Named<A>>,
    entry: Named<A>,
)
    requires
        names == players_of(entries),
        values == last_by_player(entries),
    ensures
        with_name(names, entry.name) == players_of(entries.push(entry)),
        with_value(names, values, entry.name, entry.item) == last_by_player(entries.push(entry)),
{
    let later = entries.push(entry);
    let names_after = with_name(names, entry.name);
    let values_after = with_value(names, values, entry.name, entry.item);
    lemma_players_of_push(entries, entry);
    lemma_first_seen(entries.map_values(name_of()));
    assert(values_after.len() == names_after.len());
    assert forall|k: int| 0 <= k < names_after.len() implies values_after[k] == last_of(later)(
        names_after[k],
    ) by {
        lemma_items_of_push(entries, entry, names_after[k]);
        if names.contains(entry.name) {
            let i = names.index_of(entry.name);
            if k != i {
                assert(values_after[k] == values[k]);
            }
        } else {
            if k < names.len() {
                assert(names.contains(names[k]));
                assert(values_after[k] == values[k]);
            }
        }
    }
    assert(values_after =~= last_by_player(later));
}

/// The items of a player among two runs of entries are the player's items
/// in the first run followed by those in the second.
pub proof fn lemma_items_of_concat<A>(first: Seq<Named<A>>, second: Seq<Named<A>>, name: Seq<char>)
    ensures
        items_of(first + second, name) == items_of(first, name) + items_of(second, name),
{
    Seq::filter_distributes_over_add(first, second, named(name));
    assert(items_of(first + second, name) =~= items_of(first, name) + items_of(second, name));
}

/// Entries made of distinct names give back the names and, for each name,
/// its value.
pub proof fn lemma_entries_of_distinct<A>(names: Seq<Seq<char>>, values: Seq<A>)
    requires
        names.no_duplicates(),
        names.len() == values.len(),
    ensures
        players_of(entries_of(names, values)) == names,
        last_by_player(entries_of(names, values)) == values,
    decreases names.len(),
{
    let entries = entries_of(names, values);
    if names.len() == 0 {
        lemma_players_of_empty::<A>();
        assert(entries =~= Seq::<Named<A>>::empty());
        assert(last_by_player(entries) =~= values);
    } else {
        let fewer_names = names.drop_last();
        let fewer_values = values.drop_last();
        let fewer = entries_of(fewer_names, fewer_values);
        let entry = Named { name: names.last(), item: values.last() };
        lemma_entries_of_distinct(fewer_names, fewer_values);
        assert(entries =~= fewer.push(entry));
        lemma_last_written(fewer_names, fewer_values, fewer, entry);
        if fewer_names.contains(entry.name) {
            let k = choose|k: int| 0 <= k < fewer_names.len() && fewer_names[k] == entry.name;
            assert(names[k] == names[names.len() - 1]);
        }
        assert(fewer_names.push(entry.name) =~= names);
        assert(fewer_values.push(entry.item) =~= values);
    }
}

} // verus!
