//! The register store: named cells that hold natural numbers, kept in the
//! order in which the names first appeared.
//!
//! At run time the store is an `indexmap::IndexMap`. Its contents are
//! modelled as a sequence of entries, a name with its value, and the two
//! operations of the machine, reading and writing a named cell, are spec
//! functions on that sequence.

use vstd::prelude::*;
use indexmap::IndexMap;

verus! {

/// The entries of a register store: each register's name with its value, in
/// the order in which the registers were first written.
pub type Entries = Seq<(Seq<char>, usize)>;

/// Whether `i` is where a search for `name` from the front of `entries`
/// ends: at the first entry of that name, or behind the last entry if there
/// is none.
pub open spec fn is_first_index(entries: Entries, name: Seq<char>, i: int) -> bool {
    &&& 0 <= i <= entries.len()
    &&& i < entries.len() ==> entries[i].0 == name
    &&& forall|j: int| 0 <= j < i ==> (#[trigger] entries[j]).0 != name
}

/// The position of the first entry called `name`, or the number of entries
/// if there is none.
pub open spec fn first_index(entries: Entries, name: Seq<char>) -> int {
    choose|i: int| is_first_index(entries, name, i)
}

/// Whether some entry is called `name`.
pub open spec fn holds(entries: Entries, name: Seq<char>) -> bool {
    first_index(entries, name) < entries.len()
}

/// The value stored under `name`, if there is an entry of that name.
pub open spec fn lookup(entries: Entries, name: Seq<char>) -> Option<usize> {
    if holds(entries, name) {
        Some(entries[first_index(entries, name)].1)
    } else {
        None
    }
}

/// What a read of register `name` yields: its stored value, and zero for a
/// register that has no entry.
pub open spec fn read(entries: Entries, name: Seq<char>) -> usize {
    match lookup(entries, name) {
        Some(value) => value,
        None => 0,
    }
}

/// The entries after `value` was written to register `name`: an existing
/// entry keeps its place and takes the value, a new one goes to the end.
pub open spec fn assign(entries: Entries, name: Seq<char>, value: usize) -> Entries {
    if holds(entries, name) {
        entries.update(first_index(entries, name), (name, value))
    } else {
        entries.push((name, value))
    }
}

proof fn search_from(entries: Entries, name: Seq<char>, start: int) -> (i: int)
    requires
        0 <= start <= entries.len(),
        forall|j: int| 0 <= j < start ==> (#[trigger] entries[j]).0 != name,
    ensures
        is_first_index(entries, name, i),
    decreases entries.len() - start,
{
    if start < entries.len() && entries[start].0 != name {
        search_from(entries, name, start + 1)
    } else {
        start
    }
}

/// A search always ends somewhere, and in one place only.
pub proof fn lemma_first_index(entries: Entries, name: Seq<char>)
    ensures
        is_first_index(entries, name, first_index(entries, name)),
        forall|i: int| is_first_index(entries, name, i) ==> i == first_index(entries, name),
{
    let found = search_from(entries, name, 0);
    let at = first_index(entries, name);
    assert(is_first_index(entries, name, at));
    assert forall|i: int| is_first_index(entries, name, i) implies i == at by {
        if i < at {
            assert(entries[i].0 == name);
        } else if at < i {
            assert(entries[at].0 == name);
        }
    }
}

/// No register has an entry in the empty store, so every read of it yields
/// zero.
pub proof fn lemma_read_empty(name: Seq<char>)
    ensures
        read(Seq::empty(), name) == 0,
        lookup(Seq::empty(), name) is None,
{
    lemma_first_index(Seq::empty(), name);
}

/// A read of the register just written yields the value written.
pub proof fn lemma_read_written(entries: Entries, name: Seq<char>, value: usize)
    ensures
        lookup(assign(entries, name, value), name) == Some(value),
        read(assign(entries, name, value), name) == value,
{
    lemma_first_index(entries, name);
    let at = first_index(entries, name);
    let after = assign(entries, name, value);
    assert(is_first_index(after, name, at));
    lemma_first_index(after, name);
}

/// A write to one register changes no other: a register that had no entry
/// still has none, and one that had an entry keeps its value.
pub proof fn lemma_read_other(entries: Entries, name: Seq<char>, value: usize, other: Seq<char>)
    requires
        other != name,
    ensures
        lookup(assign(entries, name, value), other) == lookup(entries, other),
        read(assign(entries, name, value), other) == read(entries, other),
{
    lemma_first_index(entries, name);
    lemma_first_index(entries, other);
    let after = assign(entries, name, value);
    let before = first_index(entries, other);
    let at = if before == entries.len() {
        after.len() as int
    } else {
        before
    };
    assert(is_first_index(after, other, at)) by {
        assert forall|j: int| 0 <= j < at implies (#[trigger] after[j]).0 != other by {
            if j < entries.len() && j != first_index(entries, name) {
                assert(entries[j].0 != other);
            }
        }
    }
    lemma_first_index(after, other);
}

/// `indexmap::IndexMap`, the insertion-ordered hash map that stores the
/// registers. The verifier sees nothing inside a value of it; what it holds
/// is spoken of through `register_entries`.
#[verifier::external_type_specification]
#[verifier::external_body]
#[verifier::reject_recursive_types(K)]
#[verifier::reject_recursive_types(V)]
#[verifier::reject_recursive_types(S)]
pub struct ExIndexMap<K, V, S>(IndexMap<K, V, S>);

/// The entries that a register store holds: the key of each pair of the
/// map as its sequence of characters, with the value, in the order in which
/// the map keeps its pairs.
pub uninterp spec fn register_entries(registers: IndexMap<String, usize>) -> Seq<
    (Seq<char>, usize),
>;

/// `IndexMap::new`: the map it makes holds no entry.
#[verifier::external_body]
pub(crate) fn empty_registers() -> (registers: IndexMap<String, usize>)
    ensures
        register_entries(registers) == Seq::<(Seq<char>, usize)>::empty(),
{
    IndexMap::new()
}

/// `IndexMap::get`: the value stored under the key that equals `name`, if
/// the map holds such a key.
#[verifier::external_body]
pub(crate) fn stored_value(
    registers: &IndexMap<String, usize>,
    name: &String,
) -> (value: Option<usize>)
    ensures
        value == lookup(register_entries(*registers), name@),
{
    registers.get(name).copied()
}

/// `IndexMap::insert`: where the map holds a key equal to `name`, that entry
/// keeps its place and takes `value`; where it holds none, the pair becomes
/// the last entry. The value that was stored before is handed back.
#[verifier::external_body]
pub(crate) fn store_value(
    registers: &mut IndexMap<String, usize>,
    name: String,
    value: usize,
) -> (previous: Option<usize>)
    ensures
        register_entries(*final(registers)) == assign(
            register_entries(*old(registers)),
            name@,
            value,
        ),
        previous == lookup(register_entries(*old(registers)), name@),
{
    registers.insert(name, value)
}

} // verus!
