use vstd::prelude::*;

verus! {

/// The name of the empty block state, which every fresh chunk holds at palette index 0.
pub open spec fn air_name() -> Seq<char> {
    seq!['a', 'i', 'r']
}

/// The strings of a palette, as character sequences.
pub open spec fn state_names(palette: Seq<String>) -> Seq<Seq<char>> {
    palette.map_values(|s: String| s@)
}

/// Where a voxel that pointed at entry `v` of `old` points after the palette became `new`:
/// at the first entry of `new` with the same name, or at 0 when `new` lacks that name.
/// A voxel that pointed outside of `old` keeps its value.
pub open spec fn remap(old: Seq<Seq<char>>, new: Seq<Seq<char>>, v: u16) -> u16 {
    if (v as int) < old.len() {
        match new.index_of_first(old[v as int]) {
            Some(n) => n as u16,
            None => 0u16,
        }
    } else {
        v
    }
}

/// A position `i` where `x` occurs in `s` and nowhere before is the first index of `x`.
pub proof fn lemma_first_index<A>(s: Seq<A>, x: A, i: int)
    requires
        0 <= i < s.len(),
        s[i] == x,
        forall|j: int| 0 <= j < i ==> s[j] != x,
    ensures
        s.index_of_first(x) == Some(i),
{
    s.index_of_first_ensures(x);
    match s.index_of_first(x) {
        Some(k) => {
            if k < i {
                assert(s[k] == x);
            } else if k > i {
                assert(s[i] != x);
            }
        },
        None => {
            assert(s.contains(x));
        },
    }
}

/// A value that occurs nowhere in `s` has no first index.
pub proof fn lemma_no_index<A>(s: Seq<A>, x: A)
    requires
        forall|j: int| 0 <= j < s.len() ==> s[j] != x,
    ensures
        s.index_of_first(x) is None,
{
    s.index_of_first_ensures(x);
}

/// The first index of a value is where it occurs, and no earlier entry holds it.
pub proof fn lemma_index_facts<A>(s: Seq<A>, x: A)
    ensures
        s.index_of_first(x) matches Some(n) ==> 0 <= n < s.len() && s[n] == x && (forall|j: int|
            0 <= j < n ==> s[j] != x),
        s.index_of_first(x) is None <==> !s.contains(x),
{
    s.index_of_first_ensures(x);
}


/// When the name of entry `v` of `old` is in `new` at a first index below 65536, a voxel
/// re-pointed by `remap` names the same state as before; when the name is gone, it points at 0.
pub proof fn lemma_remap_names(old: Seq<Seq<char>>, new: Seq<Seq<char>>, v: u16)
    requires
        (v as int) < old.len(),
        new.index_of_first(old[v as int]) matches Some(n) ==> n < 65536,
    ensures
        new.contains(old[v as int]) ==> (remap(old, new, v) as int) < new.len() && new[remap(
            old,
            new,
            v,
        ) as int] == old[v as int],
        !new.contains(old[v as int]) ==> remap(old, new, v) == 0,
{
    new.index_of_first_ensures(old[v as int]);
}

/// Appending to a palette keeps the first index of every name already in it.
pub proof fn lemma_first_index_push(s: Seq<Seq<char>>, x: Seq<char>, v: int)
    requires
        0 <= v < s.len(),
    ensures
        s.push(x).index_of_first(s[v]) == s.index_of_first(s[v]),
        s.index_of_first(s[v]) matches Some(n) ==> n <= v,
{
    s.index_of_first_ensures(s[v]);
    let n = s.index_of_first(s[v])->Some_0;
    lemma_first_index(s.push(x), s[v], n);
}

} // verus!
