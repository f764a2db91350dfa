//! Record kinds: case-insensitive matching and the sorted list of kinds present.
use vstd::prelude::*;
use vstd::string::*;
use crate::table::Record;

verus! {

/// What `str::to_lowercase` gives for a text.
pub uninterp spec fn lower_of(s: Seq<char>) -> Seq<char>;

/// Relies on `str::to_lowercase`: the lower-case form of a text, which
/// depends on its characters alone.
#[verifier::external_body]
pub(crate) fn lowercase(s: &str) -> (r: String)
    ensures
        r@ == lower_of(s@),
{
    s.to_lowercase()
}

/// Lexical order on texts, character by character (by code point), a
/// proper prefix coming first.
pub open spec fn lex_lt(a: Seq<char>, b: Seq<char>) -> bool
    decreases a.len(),
{
    if a.len() == 0 {
        b.len() > 0
    } else if b.len() == 0 {
        false
    } else if a[0] != b[0] {
        (a[0] as u32) < (b[0] as u32)
    } else {
        lex_lt(a.drop_first(), b.drop_first())
    }
}

/// Strictly increasing in lexical order, hence without repeats.
pub open spec fn strictly_sorted(s: Seq<Seq<char>>) -> bool {
    forall|i: int, j: int| 0 <= i < j < s.len() ==> lex_lt(s[i], s[j])
}

pub open spec fn texts_view(v: Seq<String>) -> Seq<Seq<char>> {
    v.map_values(|s: String| s@)
}

/// The lower-case forms of the kinds of `rs`.
pub open spec fn kinds_of(rs: Seq<Record>) -> Set<Seq<char>> {
    Set::new(|k: Seq<char>| exists|i: int| 0 <= i < rs.len() && lower_of(rs[i].kind@) == k)
}

pub proof fn lemma_lex_irreflexive(a: Seq<char>)
    ensures
        !lex_lt(a, a),
    decreases a.len(),
{
    if a.len() > 0 {
        lemma_lex_irreflexive(a.drop_first());
    }
}

pub proof fn lemma_lex_total(a: Seq<char>, b: Seq<char>)
    ensures
        a == b || lex_lt(a, b) || lex_lt(b, a),
    decreases a.len(),
{
    if a.len() > 0 && b.len() > 0 && a[0] == b[0] {
        lemma_lex_total(a.drop_first(), b.drop_first());
        if a.drop_first() == b.drop_first() {
            assert(a =~= seq![a[0]] + a.drop_first());
            assert(b =~= seq![b[0]] + b.drop_first());
        }
    } else if a.len() == 0 && b.len() == 0 {
        assert(a =~= b);
    } else if a.len() > 0 && b.len() > 0 {
        vstd::utf8::char_u32_cast(a[0], a[0] as u32);
        vstd::utf8::char_u32_cast(b[0], b[0] as u32);
    }
}

pub proof fn lemma_lex_transitive(a: Seq<char>, b: Seq<char>, c: Seq<char>)
    requires
        lex_lt(a, b),
        lex_lt(b, c),
    ensures
        lex_lt(a, c),
    decreases a.len(),
{
    if a.len() > 0 && a[0] == b[0] && b[0] == c[0] {
        lemma_lex_transitive(a.drop_first(), b.drop_first(), c.drop_first());
    }
}

/// Compares two texts in lexical order.
pub fn text_lt(a: &String, b: &String) -> (r: bool)
    ensures
        r == lex_lt(a@, b@),
{
    let x = a.as_str();
    let y = b.as_str();
    let n = x.unicode_len();
    let m = y.unicode_len();
    let mut i: usize = 0;
    assert(a@.skip(0) =~= a@);
    assert(b@.skip(0) =~= b@);
    while i < n && i < m
        invariant
            i <= n,
            i <= m,
            n == a@.len(),
            m == b@.len(),
            x@ == a@,
            y@ == b@,
            lex_lt(a@.skip(i as int), b@.skip(i as int)) == lex_lt(a@, b@),
        decreases n - i,
    {
        let c = x.get_char(i);
        let d = y.get_char(i);
        assert(a@.skip(i as int)[0] == c);
        assert(b@.skip(i as int)[0] == d);
        if c != d {
            return (c as u32) < (d as u32);
        }
        assert(a@.skip(i as int).drop_first() =~= a@.skip(i + 1));
        assert(b@.skip(i as int).drop_first() =~= b@.skip(i + 1));
        i = i + 1;
    }
    assert(i == n ==> a@.skip(i as int).len() == 0);
    assert(i == m ==> b@.skip(i as int).len() == 0);
    i == n && i < m
}

/// Inserts `k` into a strictly sorted list, keeping it strictly sorted;
/// a text already present is not added again.
fn insert_sorted(v: &mut Vec<String>, k: String)
    requires
        strictly_sorted(texts_view(old(v)@)),
    ensures
        strictly_sorted(texts_view(final(v)@)),
        texts_view(final(v)@).to_set() == texts_view(old(v)@).to_set().insert(k@),
{
    let mut i: usize = 0;
    while i < v.len() && text_lt(&v[i], &k)
        invariant
            i <= v.len(),
            v@ == old(v)@,
            forall|j: int| 0 <= j < i ==> lex_lt(texts_view(v@)[j], k@),
        decreases v.len() - i,
    {
        i = i + 1;
    }
    let ghost t = texts_view(v@);
    if i < v.len() && v[i] == k {
        assert(t[i as int] == k@);
        assert(t.to_set().insert(k@) =~= t.to_set());
        return;
    }
    proof {
        if i < v.len() {
            lemma_lex_total(t[i as int], k@);
        }
    }
    v.insert(i, k);
    proof {
        let u = texts_view(v@);
        assert(u =~= t.insert(i as int, k@));
        assert forall|a: int, b: int| 0 <= a < b < u.len() implies lex_lt(u[a], u[b]) by {
            if b == i {
                assert(u[a] == t[a]);
            } else if a == i {
                assert(u[b] == t[b - 1]);
                if b - 1 > i {
                    lemma_lex_transitive(k@, t[i as int], t[b - 1]);
                }
            } else if a > i {
                assert(u[a] == t[a - 1] && u[b] == t[b - 1]);
            } else if b > i {
                assert(u[a] == t[a] && u[b] == t[b - 1]);
            } else {
                assert(u[a] == t[a] && u[b] == t[b]);
            }
        }
        assert forall|x: Seq<char>| u.to_set().contains(x) <==> t.to_set().insert(k@).contains(
            x,
        ) by {
            if u.to_set().contains(x) {
                let a = choose|a: int| 0 <= a < u.len() && u[a] == x;
                if a < i {
                    assert(t[a] == x);
                } else if a > i {
                    assert(t[a - 1] == x);
                }
            }
            if t.to_set().contains(x) && x != k@ {
                let a = choose|a: int| 0 <= a < t.len() && t[a] == x;
                if a < i {
                    assert(u[a] == x);
                } else {
                    assert(u[a + 1] == x);
                }
            }
            if x == k@ {
                assert(u[i as int] == x);
            }
        }
        assert(u.to_set() =~= t.to_set().insert(k@));
    }
}

/// The distinct texts of `kinds`, sorted.
pub fn distinct_sorted(kinds: &Vec<String>) -> (r: Vec<String>)
    ensures
        strictly_sorted(texts_view(r@)),
        texts_view(r@).to_set() == texts_view(kinds@).to_set(),
{
    let mut out: Vec<String> = Vec::new();
    let mut i: usize = 0;
    assert(texts_view(out@).to_set() =~= texts_view(kinds@.take(0)).to_set());
    while i < kinds.len()
        invariant
            i <= kinds.len(),
            strictly_sorted(texts_view(out@)),
            texts_view(out@).to_set() == texts_view(kinds@.take(i as int)).to_set(),
        decreases kinds.len() - i,
    {
        insert_sorted(&mut out, kinds[i].clone());
        assert(texts_view(kinds@.take(i + 1)) =~= texts_view(kinds@.take(i as int)).push(
            kinds@[i as int]@,
        ));
        proof {
            let s0 = texts_view(kinds@.take(i as int));
            let e = kinds@[i as int]@;
            assert forall|y: Seq<char>| s0.push(e).to_set().contains(y) <==> s0.to_set().insert(
                e,
            ).contains(y) by {
                if s0.push(e).to_set().contains(y) {
                    let a = choose|a: int| 0 <= a < s0.push(e).len() && s0.push(e)[a] == y;
                    if a < s0.len() {
                        assert(s0[a] == y);
                    }
                }
                if s0.to_set().contains(y) {
                    let a = choose|a: int| 0 <= a < s0.len() && s0[a] == y;
                    assert(s0.push(e)[a] == y);
                }
                if y == e {
                    assert(s0.push(e)[s0.len() as int] == e);
                }
            }
            assert(s0.push(e).to_set() =~= s0.to_set().insert(e));
        }
        i = i + 1;
    }
    assert(kinds@.take(i as int) =~= kinds@);
    out
}

/// The distinct lower-case forms of the records' kinds, sorted.
pub fn get_message_types(records: &Vec<Record>) -> (r: Vec<String>)
    ensures
        strictly_sorted(texts_view(r@)),
        texts_view(r@).to_set() == kinds_of(records@),
{
    let mut lowered: Vec<String> = Vec::new();
    let mut i: usize = 0;
    while i < records.len()
        invariant
            i <= records.len(),
            lowered@.len() == i,
            forall|j: int| 0 <= j < i ==> #[trigger] lowered@[j]@ == lower_of(records@[j].kind@),
        decreases records.len() - i,
    {
        lowered.push(lowercase(records[i].kind.as_str()));
        i = i + 1;
    }
    let r = distinct_sorted(&lowered);
    proof {
        let t = texts_view(lowered@);
        assert forall|x: Seq<char>| t.to_set().contains(x) <==> kinds_of(records@).contains(x) by {
            if t.to_set().contains(x) {
                let a = choose|a: int| 0 <= a < t.len() && t[a] == x;
                assert(lowered@[a]@ == lower_of(records@[a].kind@));
            }
            if kinds_of(records@).contains(x) {
                let a = choose|a: int| 0 <= a < records@.len() && lower_of(records@[a].kind@) == x;
                assert(lowered@[a]@ == x);
                assert(t[a] == x);
            }
        }
        assert(t.to_set() =~= kinds_of(records@));
    }
    r
}

} // verus!
