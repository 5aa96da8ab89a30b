//! The table that gives every variable name a dense slot.
use vstd::prelude::*;

verus! {

/// The names held by a table, each as its sequence of characters.
pub open spec fn names_of(table: Seq<String>) -> Seq<Seq<char>> {
    Seq::new(table.len(), |i: int| table[i]@)
}

/// The first slot that holds `name`, if one does.
pub open spec fn find(table: Seq<Seq<char>>, name: Seq<char>) -> Option<int>
    decreases table.len(),
{
    if table.len() == 0 {
        None
    } else {
        match find(table.drop_last(), name) {
            Some(i) => Some(i),
            None => if table.last() == name {
                Some(table.len() - 1)
            } else {
                None
            },
        }
    }
}

/// The slot `name` resolves to: where it already stands, or else the next
/// free slot.
pub open spec fn slot_of(table: Seq<Seq<char>>, name: Seq<char>) -> int {
    match find(table, name) {
        Some(i) => i,
        None => table.len() as int,
    }
}

/// The table after `name` was resolved: unchanged when the name was known,
/// one entry longer when it was not.
pub open spec fn with_name(table: Seq<Seq<char>>, name: Seq<char>) -> Seq<Seq<char>> {
    match find(table, name) {
        Some(_) => table,
        None => table.push(name),
    }
}

/// Whether no name stands in the table twice.
pub open spec fn distinct(table: Seq<Seq<char>>) -> bool {
    forall|i: int, j: int| 0 <= i < j < table.len() ==> table[i] != table[j]
}

/// What `find` reports: `None` exactly when the name is absent, and
/// otherwise the least slot that holds it.
pub proof fn lemma_find(table: Seq<Seq<char>>, name: Seq<char>)
    ensures
        find(table, name) is None <==> !table.contains(name),
        find(table, name) matches Some(i) ==> {
            &&& 0 <= i < table.len()
            &&& table[i] == name
            &&& forall|j: int| 0 <= j < i ==> table[j] != name
        },
    decreases table.len(),
{
    if table.len() > 0 {
        let front = table.drop_last();
        lemma_find(front, name);
        if front.contains(name) {
            let k = choose|k: int| 0 <= k < front.len() && front[k] == name;
            assert(table[k] == name);
        }
        if table.contains(name) && !front.contains(name) {
            let k = choose|k: int| 0 <= k < table.len() && table[k] == name;
            if k < front.len() {
                assert(front[k] == name);
            }
        }
        match find(front, name) {
            Some(i) => {
                assert(table[i] == front[i]);
                assert forall|j: int| 0 <= j < i implies table[j] != name by {
                    assert(table[j] == front[j]);
                }
            },
            None => {
                if table.last() == name {
                    assert(table[table.len() - 1] == name);
                    assert forall|j: int| 0 <= j < table.len() - 1 implies table[j] != name by {
                        assert(front[j] == table[j]);
                    }
                }
            },
        }
    }
}

/// Resolving a name keeps every slot already given, puts the name at the
/// slot reported, and keeps the table free of duplicates.
pub proof fn lemma_with_name(table: Seq<Seq<char>>, name: Seq<char>)
    ensures
        table.is_prefix_of(with_name(table, name)),
        0 <= slot_of(table, name) < with_name(table, name).len(),
        with_name(table, name)[slot_of(table, name)] == name,
        find(with_name(table, name), name) == Some(slot_of(table, name)),
        distinct(table) ==> distinct(with_name(table, name)),
{
    lemma_find(table, name);
    let after = with_name(table, name);
    lemma_find(after, name);
    if find(table, name) is None {
        assert(after.drop_last() == table);
        assert(after.last() == name);
        if distinct(table) {
            assert forall|i: int, j: int| 0 <= i < j < after.len() implies after[i] != after[j] by {
                if j == table.len() {
                    assert(table[i] == after[i]);
                    assert(table.contains(table[i]));
                }
            }
        }
    }
}

/// A name once resolved resolves to the same slot in every table that
/// extends the first one.
pub proof fn lemma_slot_is_stable(table: Seq<Seq<char>>, later: Seq<Seq<char>>, name: Seq<char>)
    requires
        table.is_prefix_of(later),
        table.contains(name),
    ensures
        find(later, name) == find(table, name),
        slot_of(later, name) == slot_of(table, name),
        with_name(later, name) == later,
{
    lemma_find(table, name);
    lemma_find(later, name);
    let i = find(table, name)->Some_0;
    assert(later[i] == table[i]);
    assert(later.contains(name));
    let k = find(later, name)->Some_0;
    if k < i {
        assert(table[k] == later[k]);
    }
}

/// Resolves `name` in `table`: the slot of its first occurrence, or, after
/// appending it, the slot it was appended at.
pub fn intern(table: &mut Vec<String>, name: String) -> (slot: usize)
    ensures
        names_of(final(table)@) == with_name(names_of(old(table)@), name@),
        slot == slot_of(names_of(old(table)@), name@),
        slot < final(table)@.len(),
        final(table)@[slot as int]@ == name@,
        old(table)@.is_prefix_of(final(table)@),
{
    let ghost before = names_of(table@);
    let mut i: usize = 0;
    while i < table.len()
        invariant
            i <= table.len(),
            *table == *old(table),
            before == names_of(table@),
            find(before.take(i as int), name@) is None,
        decreases table.len() - i,
    {
        if table[i] == name {
            proof {
                assert(before.take(i as int + 1).drop_last() == before.take(i as int));
                assert(before[i as int] == name@);
                lemma_find_in_prefix(before, name@, i as int + 1);
            }
            return i;
        }
        proof {
            assert(before.take(i as int + 1).drop_last() == before.take(i as int));
            assert(before[i as int] != name@);
        }
        i = i + 1;
    }
    proof {
        assert(before.take(i as int) == before);
    }
    table.push(name);
    proof {
        assert(names_of(table@) =~= before.push(name@));
    }
    table.len() - 1
}

/// A hit within the first `n` entries is the hit of the whole table.
pub proof fn lemma_find_in_prefix(table: Seq<Seq<char>>, name: Seq<char>, n: int)
    requires
        0 <= n <= table.len(),
        find(table.take(n), name) is Some,
    ensures
        find(table, name) == find(table.take(n), name),
    decreases table.len() - n,
{
    if n < table.len() {
        assert(table.take(n + 1).drop_last() == table.take(n));
        lemma_find_in_prefix(table, name, n + 1);
    } else {
        assert(table.take(n) == table);
    }
}

} // verus!
