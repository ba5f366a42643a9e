//! Positions of keys in a sequence of keys: the model of a repository whose
//! entries are identified by a text key.
use vstd::prelude::*;

verus! {

/// The index of the first key equal to `key` at or after `i`, or -1.
pub open spec fn key_position_from(keys: Seq<Seq<char>>, key: Seq<char>, i: int) -> int
    decreases keys.len() - i,
{
    if i < 0 || i >= keys.len() {
        -1
    } else if keys[i] == key {
        i
    } else {
        key_position_from(keys, key, i + 1)
    }
}

/// The index of the first key equal to `key`, or -1 if there is none.
pub open spec fn key_position(keys: Seq<Seq<char>>, key: Seq<char>) -> int {
    key_position_from(keys, key, 0)
}

/// No key occurs twice.
pub open spec fn keys_distinct(keys: Seq<Seq<char>>) -> bool {
    forall|i: int, j: int| 0 <= i < j < keys.len() ==> keys[i] != keys[j]
}

proof fn lemma_key_position_from(keys: Seq<Seq<char>>, key: Seq<char>, i: int)
    requires
        0 <= i <= keys.len(),
    ensures
        key_position_from(keys, key, i) == -1 || (i <= key_position_from(keys, key, i)
            < keys.len()),
        key_position_from(keys, key, i) >= 0 ==> keys[key_position_from(keys, key, i)] == key,
        forall|j: int|
            i <= j < keys.len() && (key_position_from(keys, key, i) == -1 || j
                < key_position_from(keys, key, i)) ==> keys[j] != key,
    decreases keys.len() - i,
{
    if i < keys.len() && keys[i] != key {
        lemma_key_position_from(keys, key, i + 1);
    }
}

/// What `key_position` returns: the first index holding `key`, or -1 when no
/// index holds it.
pub proof fn lemma_key_position(keys: Seq<Seq<char>>, key: Seq<char>)
    ensures
        -1 <= key_position(keys, key) < keys.len(),
        key_position(keys, key) >= 0 ==> keys[key_position(keys, key)] == key,
        key_position(keys, key) == -1 <==> !keys.contains(key),
        forall|j: int| 0 <= j < key_position(keys, key) ==> keys[j] != key,
{
    lemma_key_position_from(keys, key, 0);
    if key_position(keys, key) >= 0 {
        assert(keys.contains(key));
    } else {
        assert forall|j: int| 0 <= j < keys.len() implies keys[j] != key by {}
    }
}

/// With distinct keys, any index holding `key` is its position.
pub proof fn lemma_key_position_unique(keys: Seq<Seq<char>>, key: Seq<char>, j: int)
    requires
        keys_distinct(keys),
        0 <= j < keys.len(),
        keys[j] == key,
    ensures
        key_position(keys, key) == j,
{
    lemma_key_position(keys, key);
}

} // verus!
