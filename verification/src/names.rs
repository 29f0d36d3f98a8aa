//! Tables of names, in which the first entry of a name counts.

use vstd::prelude::*;

verus! {

/// Whether `i` is the first index at which `names` holds `name`.
pub open spec fn is_first(names: Seq<Seq<char>>, name: Seq<char>, i: int) -> bool {
    &&& 0 <= i < names.len()
    &&& names[i] == name
    &&& forall|j: int| 0 <= j < i ==> names[j] != name
}

/// The first index at which `names` holds `name`.
pub open spec fn position(names: Seq<Seq<char>>, name: Seq<char>) -> Option<int> {
    if exists|i: int| is_first(names, name, i) {
        Some(choose|i: int| is_first(names, name, i))
    } else {
        None
    }
}

/// The first index is the position.
pub proof fn lemma_position_found(names: Seq<Seq<char>>, name: Seq<char>, i: int)
    requires
        is_first(names, name, i),
    ensures
        position(names, name) == Some(i),
{
    let c = choose|i: int| is_first(names, name, i);
    if c < i {
        assert(names[c] != name);
    } else if i < c {
        assert(names[i] != name);
    }
}

/// A name that no index holds has no position.
pub proof fn lemma_position_none(names: Seq<Seq<char>>, name: Seq<char>)
    requires
        forall|j: int| 0 <= j < names.len() ==> names[j] != name,
    ensures
        position(names, name) is None,
{
}

/// A position is an index that holds the name.
pub proof fn lemma_position_holds(names: Seq<Seq<char>>, name: Seq<char>)
    ensures
        match position(names, name) {
            Some(i) => is_first(names, name, i),
            None => forall|j: int| 0 <= j < names.len() ==> names[j] != name,
        },
{
    if position(names, name) is None {
        assert forall|j: int| 0 <= j < names.len() implies names[j] != name by {
            if names[j] == name {
                lemma_some_first(names, name, j);
            }
        }
    }
}

/// Where an index holds the name, some index is the first to hold it.
proof fn lemma_some_first(names: Seq<Seq<char>>, name: Seq<char>, j: int)
    requires
        0 <= j < names.len(),
        names[j] == name,
    ensures
        exists|i: int| is_first(names, name, i),
    decreases j,
{
    if forall|k: int| 0 <= k < j ==> names[k] != name {
        assert(is_first(names, name, j));
    } else {
        let k = choose|k: int| 0 <= k < j && names[k] == name;
        lemma_some_first(names, name, k);
    }
}

} // verus!
