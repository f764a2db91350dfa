//! Resolution of raw field keys to column names.
use vstd::prelude::*;
use vstd::string::*;
use crate::value::{decimal, push_decimal};

verus! {

/// The canonical label of a raw field key: `field_<key>`.
pub open spec fn label(key: nat) -> Seq<char> {
    seq!['f', 'i', 'e', 'l', 'd', '_'] + decimal(key)
}

/// The view of a mapping from labels to chosen names.
pub open spec fn pairs_view(m: Seq<(String, String)>) -> Seq<(Seq<char>, Seq<char>)> {
    m.map_values(|p: (String, String)| (p.0@, p.1@))
}

/// The view of an optional mapping; no mapping maps nothing.
pub open spec fn mapping_view(m: Option<Vec<(String, String)>>) -> Seq<(Seq<char>, Seq<char>)> {
    match m {
        Some(v) => pairs_view(v@),
        None => Seq::empty(),
    }
}

/// The name that the first entry for `k` gives, if any.
pub open spec fn lookup(m: Seq<(Seq<char>, Seq<char>)>, k: Seq<char>) -> Option<Seq<char>>
    decreases m.len(),
{
    if m.len() == 0 {
        None
    } else if m[0].0 == k {
        Some(m[0].1)
    } else {
        lookup(m.drop_first(), k)
    }
}

/// The column name of a field with raw key `key` under mapping `m`.
pub open spec fn column_name(m: Seq<(Seq<char>, Seq<char>)>, key: nat) -> Seq<char> {
    match lookup(m, label(key)) {
        Some(n) => n,
        None => label(key),
    }
}

/// Renders the canonical label of a raw field key.
pub fn field_label(key: usize) -> (r: String)
    ensures
        r@ == label(key as nat),
{
    proof {
        reveal_strlit("field_");
    }
    let mut out = String::from_str("field_");
    push_decimal(&mut out, key as u64);
    out
}

/// Looks `k` up in `m`, giving the name of the first entry for it.
pub fn find_name(m: &Vec<(String, String)>, k: &String) -> (r: Option<String>)
    ensures
        match r {
            Some(n) => lookup(pairs_view(m@), k@) == Some(n@),
            None => lookup(pairs_view(m@), k@) is None,
        },
{
    let mut i: usize = 0;
    assert(pairs_view(m@).skip(0) =~= pairs_view(m@));
    while i < m.len()
        invariant
            i <= m.len(),
            lookup(pairs_view(m@).skip(i as int), k@) == lookup(pairs_view(m@), k@),
        decreases m.len() - i,
    {
        let ghost rest = pairs_view(m@).skip(i as int);
        assert(rest.drop_first() =~= pairs_view(m@).skip(i + 1));
        if m[i].0 == *k {
            return Some(m[i].1.clone());
        }
        i = i + 1;
    }
    assert(pairs_view(m@).skip(i as int).len() == 0);
    None
}

/// Resolves a raw field key to its column name: the mapped name where the
/// mapping has an entry for the key's label, the label itself otherwise.
pub fn resolve_name(key: usize, mapping: &Option<Vec<(String, String)>>) -> (r: String)
    ensures
        r@ == column_name(mapping_view(*mapping), key as nat),
{
    let l = field_label(key);
    match mapping {
        Some(m) => match find_name(m, &l) {
            Some(n) => n,
            None => l,
        },
        None => l,
    }
}

} // verus!
