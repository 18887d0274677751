use vstd::prelude::*;

verus! {

/// The table that results from interning `key` into `table`.
///
/// A table lists the distinct keys that were interned so far, each at the
/// place at which it was first seen. A known key leaves the table as it is, a
/// new one goes to its end.
pub open spec fn interned<K>(table: Seq<K>, key: K) -> Seq<K> {
    if table.contains(key) {
        table
    } else {
        table.push(key)
    }
}

/// The table that results from interning `keys` into `table`, one after the
/// other, front to back.
pub open spec fn interned_all<K>(table: Seq<K>, keys: Seq<K>) -> Seq<K>
    decreases keys.len(),
{
    if keys.len() == 0 {
        table
    } else {
        interned(interned_all(table, keys.drop_last()), keys.last())
    }
}

/// The distinct members of `keys`, in the order of their first occurrence.
pub open spec fn first_seen<K>(keys: Seq<K>) -> Seq<K> {
    interned_all(Seq::empty(), keys)
}

/// The identifier that `table` gives to `key`: identifiers count from 1 in
/// first-seen order, so it is one more than the key's position.
pub open spec fn identifier<K>(table: Seq<K>, key: K) -> int
    recommends
        table.contains(key),
{
    table.index_of(key) + 1
}

/// Whether `key` can be interned into `table` with 64-bit identifiers.
///
/// A known key always can. A new key takes the next identifier and advances
/// the counter by one, so the counter, which is one more than the size of the
/// table, must still be below the largest 64-bit value.
pub open spec fn admits<K>(table: Seq<K>, key: K) -> bool {
    table.contains(key) || table.len() + 1 < u64::MAX
}

/// In a table without repetitions, the key at position `i` has identifier
/// `i + 1`.
pub proof fn lemma_identifier_at<K>(table: Seq<K>, i: int)
    requires
        table.no_duplicates(),
        0 <= i < table.len(),
    ensures
        identifier(table, table[i]) == i + 1,
{
    let j = table.index_of(table[i]);
    assert(0 <= j < table.len() && table[j] == table[i]);
}

/// The identifier of a known key lies between 1 and the size of the table,
/// and the table holds the key at the position that the identifier names.
pub proof fn lemma_identifier_in_range<K>(table: Seq<K>, key: K)
    requires
        table.contains(key),
    ensures
        1 <= identifier(table, key) <= table.len(),
        table[identifier(table, key) - 1] == key,
{
    let i = choose|i: int| 0 <= i < table.len() && table[i] == key;
    assert(0 <= i < table.len() && table[i] == key);
}

/// Interning keeps a table free of repetitions.
pub proof fn lemma_interned_no_duplicates<K>(table: Seq<K>, key: K)
    requires
        table.no_duplicates(),
    ensures
        interned(table, key).no_duplicates(),
{
    if !table.contains(key) {
        let grown = table.push(key);
        assert forall|i: int, j: int| 0 <= i < grown.len() && 0 <= j < grown.len() && i != j
            implies grown[i] != grown[j] by {
            if i < table.len() {
                assert(table[i] == grown[i]);
                assert(table.contains(grown[i]));
            }
            if j < table.len() {
                assert(table[j] == grown[j]);
                assert(table.contains(grown[j]));
            }
        }
    }
}

/// Interning a key makes it known and forgets none: the keys of the new table
/// are those of the old one and `key`.
pub proof fn lemma_interned_contains<K>(table: Seq<K>, key: K, other: K)
    ensures
        interned(table, key).contains(other) <==> table.contains(other) || other == key,
{
    let grown = table.push(key);
    if table.contains(other) {
        let i = choose|i: int| 0 <= i < table.len() && table[i] == other;
        assert(grown[i] == other);
    }
    if grown.contains(other) {
        let i = choose|i: int| 0 <= i < grown.len() && grown[i] == other;
        if i < table.len() {
            assert(table[i] == other);
        }
    }
    assert(grown[table.len() as int] == key);
}

/// Interning never changes an identifier that was already given out.
pub proof fn lemma_interned_keeps_identifiers<K>(table: Seq<K>, key: K, known: K)
    requires
        table.no_duplicates(),
        table.contains(known),
    ensures
        identifier(interned(table, key), known) == identifier(table, known),
{
    let after = interned(table, key);
    lemma_interned_no_duplicates(table, key);
    lemma_identifier_in_range(table, known);
    let i = identifier(table, known) - 1;
    assert(after[i] == known);
    lemma_identifier_at(after, i);
}

/// The identifier that interning gives to its key: the old one for a known
/// key, the next free one for a new key.
pub proof fn lemma_interned_identifier<K>(table: Seq<K>, key: K)
    requires
        table.no_duplicates(),
    ensures
        interned(table, key).contains(key),
        table.contains(key) ==> identifier(interned(table, key), key) == identifier(table, key),
        !table.contains(key) ==> identifier(interned(table, key), key) == table.len() + 1,
{
    lemma_interned_contains(table, key, key);
    if !table.contains(key) {
        let after = table.push(key);
        lemma_interned_no_duplicates(table, key);
        assert(after[table.len() as int] == key);
        lemma_identifier_at(after, table.len() as int);
    }
}

/// What interning a run of keys does to a table: the old table stays as a
/// prefix, without repetitions if it had none, and the keys of the new table
/// are those of the old one and the members of `keys`.
pub proof fn lemma_interned_all<K>(table: Seq<K>, keys: Seq<K>)
    ensures
        table.is_prefix_of(interned_all(table, keys)),
        table.no_duplicates() ==> interned_all(table, keys).no_duplicates(),
        forall|key: K| #[trigger]
            interned_all(table, keys).contains(key) <==> table.contains(key) || keys.contains(key),
    decreases keys.len(),
{
    let after = interned_all(table, keys);
    if keys.len() > 0 {
        let before = interned_all(table, keys.drop_last());
        lemma_interned_all(table, keys.drop_last());
        if table.no_duplicates() {
            lemma_interned_no_duplicates(before, keys.last());
        }
        assert forall|key: K| #[trigger]
            after.contains(key) <==> table.contains(key) || keys.contains(key) by {
            lemma_interned_contains(before, keys.last(), key);
            lemma_contains_drop_last(keys, key);
        }
    }
}

/// A key occurs in a sequence exactly when it is the last member or occurs
/// before it.
pub proof fn lemma_contains_drop_last<K>(keys: Seq<K>, key: K)
    requires
        keys.len() > 0,
    ensures
        keys.contains(key) <==> keys.drop_last().contains(key) || keys.last() == key,
{
    let front = keys.drop_last();
    if keys.contains(key) {
        let i = choose|i: int| 0 <= i < keys.len() && keys[i] == key;
        if i < front.len() {
            assert(front[i] == key);
        }
    }
    if front.contains(key) {
        let i = choose|i: int| 0 <= i < front.len() && front[i] == key;
        assert(keys[i] == key);
    }
    assert(keys[keys.len() - 1] == keys.last());
}

/// A table that grows keeps the identifiers it has given out: a key known to
/// `table` has the same identifier in every table that `table` is a prefix of
/// and that repeats no key.
pub proof fn lemma_prefix_keeps_identifiers<K>(table: Seq<K>, later: Seq<K>, known: K)
    requires
        table.is_prefix_of(later),
        later.no_duplicates(),
        table.contains(known),
    ensures
        later.contains(known),
        identifier(later, known) == identifier(table, known),
{
    lemma_identifier_in_range(table, known);
    let i = identifier(table, known) - 1;
    assert(later[i] == known);
    lemma_identifier_at(later, i);
}

/// Interning two runs of keys one after the other is interning their
/// concatenation.
pub proof fn lemma_interned_all_concat<K>(table: Seq<K>, first: Seq<K>, second: Seq<K>)
    ensures
        interned_all(table, first + second) == interned_all(interned_all(table, first), second),
    decreases second.len(),
{
    if second.len() == 0 {
        assert(first + second =~= first);
    } else {
        assert((first + second).drop_last() =~= first + second.drop_last());
        assert((first + second).last() == second.last());
        lemma_interned_all_concat(table, first, second.drop_last());
    }
}

/// Interning one more key after a run of keys.
pub proof fn lemma_interned_all_push<K>(table: Seq<K>, keys: Seq<K>, key: K)
    ensures
        interned_all(table, keys.push(key)) == interned(interned_all(table, keys), key),
{
    assert(keys.push(key).drop_last() =~= keys);
    assert(keys.push(key).last() == key);
}

/// Distinct keys never share an identifier.
pub proof fn lemma_identifiers_differ<K>(table: Seq<K>, a: K, b: K)
    requires
        table.contains(a),
        table.contains(b),
        a != b,
    ensures
        identifier(table, a) != identifier(table, b),
{
    lemma_identifier_in_range(table, a);
    lemma_identifier_in_range(table, b);
}

/// Interning adds at most one entry for each key.
pub proof fn lemma_interned_all_len<K>(table: Seq<K>, keys: Seq<K>)
    ensures
        interned_all(table, keys).len() <= table.len() + keys.len(),
    decreases keys.len(),
{
    if keys.len() > 0 {
        lemma_interned_all_len(table, keys.drop_last());
    }
}

/// Interning is by content: a key that is interned again, after whatever
/// other keys, gets the identifier it got the first time, and the table stays
/// as it is.
pub proof fn lemma_interned_again<K>(table: Seq<K>, key: K, between: Seq<K>)
    requires
        table.no_duplicates(),
    ensures
        ({
            let first = interned(table, key);
            let later = interned_all(first, between);
            &&& interned(later, key) == later
            &&& identifier(interned(later, key), key) == identifier(first, key)
        }),
{
    let first = interned(table, key);
    let later = interned_all(first, between);
    lemma_interned_no_duplicates(table, key);
    lemma_interned_identifier(table, key);
    lemma_interned_all(first, between);
    lemma_prefix_keeps_identifiers(first, later, key);
}

} // verus!
