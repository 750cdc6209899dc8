//! Lexicographic order on strings (the order of `str`'s `Ord`) and sorting.
use vstd::prelude::*;
use vstd::relations::sorted_by;
use crate::text::chars_of;

verus! {

/// `a <= b` in the order of `str::cmp`: character by character, a proper prefix first.
pub open spec fn lex_le(a: Seq<char>, b: Seq<char>) -> bool
    decreases a.len(),
{
    if a.len() == 0 {
        true
    } else if b.len() == 0 {
        false
    } else if a[0] != b[0] {
        a[0] < b[0]
    } else {
        lex_le(a.drop_first(), b.drop_first())
    }
}

pub open spec fn lex_order() -> spec_fn(Seq<char>, Seq<char>) -> bool {
    |a: Seq<char>, b: Seq<char>| lex_le(a, b)
}

pub proof fn lemma_lex_total(a: Seq<char>, b: Seq<char>)
    ensures
        lex_le(a, b) || lex_le(b, a),
    decreases a.len(),
{
    if a.len() > 0 && b.len() > 0 && a[0] == b[0] {
        lemma_lex_total(a.drop_first(), b.drop_first());
    }
}

pub proof fn lemma_lex_refl(a: Seq<char>)
    ensures
        lex_le(a, a),
    decreases a.len(),
{
    if a.len() > 0 {
        lemma_lex_refl(a.drop_first());
    }
}

pub proof fn lemma_lex_trans(a: Seq<char>, b: Seq<char>, c: Seq<char>)
    requires
        lex_le(a, b),
        lex_le(b, c),
    ensures
        lex_le(a, c),
    decreases a.len(),
{
    if a.len() > 0 && b.len() > 0 && c.len() > 0 && a[0] == b[0] && b[0] == c[0] {
        lemma_lex_trans(a.drop_first(), b.drop_first(), c.drop_first());
    }
}

pub proof fn lemma_lex_antisym(a: Seq<char>, b: Seq<char>)
    requires
        lex_le(a, b),
        lex_le(b, a),
    ensures
        a == b,
    decreases a.len(),
{
    if a.len() > 0 && b.len() > 0 {
        lemma_lex_antisym(a.drop_first(), b.drop_first());
        assert(a == seq![a[0]] + a.drop_first());
        assert(b == seq![b[0]] + b.drop_first());
    }
}

/// The lexicographic order is a total order.
pub proof fn lemma_lex_total_ordering()
    ensures
        vstd::relations::total_ordering(lex_order()),
{
    assert forall|a: Seq<char>| #[trigger] lex_order()(a, a) by {
        lemma_lex_refl(a);
    }
    assert forall|a: Seq<char>, b: Seq<char>| #[trigger] lex_order()(a, b) && #[trigger] lex_order()(b, a) implies a == b by {
        lemma_lex_antisym(a, b);
    }
    assert forall|a: Seq<char>, b: Seq<char>, c: Seq<char>| #[trigger] lex_order()(a, b) && #[trigger] lex_order()(b, c) implies lex_order()(a, c) by {
        lemma_lex_trans(a, b, c);
    }
    assert forall|a: Seq<char>, b: Seq<char>| #[trigger] lex_order()(a, b) || #[trigger] lex_order()(b, a) by {
        lemma_lex_total(a, b);
    }
}

/// Compares two strings in lexicographic order.
pub fn lex_le_exec(a: &str, b: &str) -> (r: bool)
    ensures
        r == lex_le(a@, b@),
{
    let x = chars_of(a);
    let y = chars_of(b);
    let mut i: usize = 0;
    assert(x@.skip(0) == x@ && y@.skip(0) == y@);
    while i < x.len() && i < y.len() && x[i] == y[i]
        invariant
            i <= x.len(),
            i <= y.len(),
            x@ == a@,
            y@ == b@,
            lex_le(x@, y@) == lex_le(x@.skip(i as int), y@.skip(i as int)),
        decreases x.len() - i,
    {
        assert(x@.skip(i as int).drop_first() == x@.skip(i + 1));
        assert(y@.skip(i as int).drop_first() == y@.skip(i + 1));
        i = i + 1;
    }
    if i == x.len() {
        true
    } else if i == y.len() {
        false
    } else {
        x[i] < y[i]
    }
}

pub proof fn lemma_multiset_insert_at<A>(s: Seq<A>, j: int, x: A)
    requires
        0 <= j <= s.len(),
    ensures
        s.insert(j, x).to_multiset() =~= s.to_multiset().insert(x),
{
    broadcast use vstd::seq_lib::group_to_multiset_ensures;
    broadcast use vstd::multiset::group_multiset_axioms;
    let t = s.insert(j, x);
    assert(t.remove(j) =~= s);
    assert(t[j] == x);
    assert(t.to_multiset().count(x) > 0) by {
        assert(t.contains(x));
    }
    assert(s.to_multiset() =~= t.to_multiset().remove(x));
}

/// Sorts strings in lexicographic order (as `Vec::sort` on `&str` does).
pub fn sort_strings(v: Vec<String>) -> (r: Vec<String>)
    ensures
        r@.map_values(|s: String| s@).to_multiset() == v@.map_values(|s: String| s@).to_multiset(),
        sorted_by(r@.map_values(|s: String| s@), lex_order()),
{
    let mut res: Vec<String> = Vec::new();
    let mut i: usize = 0;
    proof {
        broadcast use vstd::seq_lib::group_to_multiset_ensures;
        assert(v@.take(0) =~= Seq::<String>::empty());
        assert(res@.map_values(|s: String| s@) =~= Seq::<Seq<char>>::empty());
        assert(v@.take(0).map_values(|s: String| s@) =~= Seq::<Seq<char>>::empty());
    }
    while i < v.len()
        invariant
            i <= v.len(),
            res@.map_values(|s: String| s@).to_multiset() == v@.take(i as int).map_values(
                |s: String| s@,
            ).to_multiset(),
            sorted_by(res@.map_values(|s: String| s@), lex_order()),
        decreases v.len() - i,
    {
        let x = v[i].clone();
        let mut j: usize = 0;
        while j < res.len() && lex_le_exec(res[j].as_str(), x.as_str())
            invariant
                j <= res.len(),
                forall|k: int| 0 <= k < j ==> lex_le(#[trigger] res@[k]@, x@),
            decreases res.len() - j,
        {
            j = j + 1;
        }
        let ghost old_res = res@;
        proof {
            let f = |s: String| s@;
            lemma_multiset_insert_at(old_res.map_values(f), j as int, x@);
            assert(old_res.insert(j as int, x).map_values(f) =~= old_res.map_values(f).insert(
                j as int,
                x@,
            ));
            assert(v@.take(i + 1).map_values(f) =~= v@.take(i as int).map_values(f).push(
                v@[i as int]@,
            ));
            broadcast use vstd::seq_lib::group_to_multiset_ensures;
        }
        res.insert(j, x);
        proof {
            let m = res@.map_values(|s: String| s@);
            let om = old_res.map_values(|s: String| s@);
            assert forall|a: int, b: int| 0 <= a < b < m.len() implies #[trigger] lex_order()(
                m[a],
                m[b],
            ) by {
                if j < old_res.len() {
                    assert(!lex_le(old_res[j as int]@, x@));
                    lemma_lex_total(old_res[j as int]@, x@);
                }
                if a < j && b < j {
                    assert(m[a] == om[a] && m[b] == om[b]);
                } else if a < j && b == j {
                } else if a < j && b > j {
                    assert(m[a] == om[a] && m[b] == om[b - 1]);
                    if a < b - 1 {
                        assert(lex_order()(om[a], om[b - 1]));
                    }
                } else if a == j {
                    assert(m[b] == om[b - 1]);
                    if j < b - 1 {
                        assert(lex_order()(om[j as int], om[b - 1]));
                        lemma_lex_trans(x@, om[j as int], om[b - 1]);
                    }
                } else {
                    assert(m[a] == om[a - 1] && m[b] == om[b - 1]);
                    assert(lex_order()(om[a - 1], om[b - 1]));
                }
            }
        }
        i = i + 1;
    }
    assert(v@.take(v.len() as int) == v@);
    res
}

} // verus!
