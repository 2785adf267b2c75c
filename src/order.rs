//! Byte-wise name order, and putting staged files in it.
use vstd::prelude::*;
use vstd::multiset::Multiset;
use crate::packer::{entry_views, StagedFile};

verus! {

/// `a` comes strictly before `b` in byte-wise lexicographic order.
pub open spec fn lex_lt(a: Seq<u8>, b: Seq<u8>) -> bool
    decreases a.len(),
{
    if a.len() == 0 {
        b.len() > 0
    } else if b.len() == 0 {
        false
    } else if a[0] != b[0] {
        a[0] < b[0]
    } else {
        lex_lt(a.skip(1), b.skip(1))
    }
}

pub proof fn lemma_lex_irreflexive(a: Seq<u8>)
    ensures
        !lex_lt(a, a),
    decreases a.len(),
{
    if a.len() > 0 {
        lemma_lex_irreflexive(a.skip(1));
    }
}

pub proof fn lemma_lex_transitive(a: Seq<u8>, b: Seq<u8>, c: Seq<u8>)
    requires
        lex_lt(a, b),
        lex_lt(b, c),
    ensures
        lex_lt(a, c),
    decreases a.len(),
{
    if a.len() > 0 && b.len() > 0 && c.len() > 0 && a[0] == b[0] && b[0] == c[0] {
        lemma_lex_transitive(a.skip(1), b.skip(1), c.skip(1));
    }
}

pub proof fn lemma_lex_total(a: Seq<u8>, b: Seq<u8>)
    requires
        a != b,
    ensures
        lex_lt(a, b) || lex_lt(b, a),
    decreases a.len(),
{
    if a.len() > 0 && b.len() > 0 && a[0] == b[0] {
        if a.skip(1) == b.skip(1) {
            assert(a =~= seq![a[0]] + a.skip(1));
            assert(b =~= seq![b[0]] + b.skip(1));
        }
        lemma_lex_total(a.skip(1), b.skip(1));
    } else if a.len() == 0 && b.len() == 0 {
        assert(a =~= b);
    }
}

/// Whether `a` comes strictly before `b` in byte-wise order.
pub fn lex_less(a: &[u8], b: &[u8]) -> (r: bool)
    ensures
        r == lex_lt(a@, b@),
{
    let mut i: usize = 0;
    assert(a@.skip(0) =~= a@);
    assert(b@.skip(0) =~= b@);
    while i < a.len() && i < b.len() && a[i] == b[i]
        invariant
            i <= a@.len(),
            i <= b@.len(),
            lex_lt(a@, b@) == lex_lt(a@.skip(i as int), b@.skip(i as int)),
        decreases a@.len() - i,
    {
        assert(a@.skip(i as int).skip(1) =~= a@.skip(i + 1));
        assert(b@.skip(i as int).skip(1) =~= b@.skip(i + 1));
        i = i + 1;
    }
    if i == a.len() {
        i < b.len()
    } else if i == b.len() {
        false
    } else {
        a[i] < b[i]
    }
}

/// No file comes after one whose name is smaller.
pub open spec fn name_sorted(s: Seq<(Seq<u8>, Seq<u8>)>) -> bool {
    forall|i: int, j: int| 0 <= i < j < s.len() ==> !lex_lt(#[trigger] s[j].0, #[trigger] s[i].0)
}

/// No two files share a name.
pub open spec fn distinct_names(s: Seq<(Seq<u8>, Seq<u8>)>) -> bool {
    forall|i: int, j: int| 0 <= i < s.len() && 0 <= j < s.len() && i != j ==> #[trigger] s[i].0 != #[trigger] s[j].0
}

/// `x` holds the files of `a`, in name order.
pub open spec fn in_name_order(x: Seq<(Seq<u8>, Seq<u8>)>, a: Seq<(Seq<u8>, Seq<u8>)>) -> bool {
    name_sorted(x) && x.to_multiset() == a.to_multiset()
}

/// Puts staged files in name order.
pub fn sort_by_name(entries: Vec<StagedFile>) -> (r: Vec<StagedFile>)
    ensures
        in_name_order(entry_views(r@), entry_views(entries@)),
{
    broadcast use vstd::seq_lib::group_to_multiset_ensures;

    let ghost orig = entry_views(entries@);
    let mut rest = entries;
    let mut out: Vec<StagedFile> = Vec::new();
    assert(entry_views(rest@) =~= orig);
    while rest.len() > 0
        invariant
            name_sorted(entry_views(out@)),
            entry_views(out@).to_multiset().add(entry_views(rest@).to_multiset()) == orig.to_multiset(),
        decreases rest@.len(),
    {
        let ghost rv = entry_views(rest@);
        let e = rest.pop().unwrap();
        assert(rv =~= entry_views(rest@).push(e@));
        let ghost ov = entry_views(out@);
        let mut k: usize = 0;
        while k < out.len() && lex_less(out[k].name.as_slice(), e.name.as_slice())
            invariant
                k <= out@.len(),
                ov == entry_views(out@),
                forall|m: int| 0 <= m < k ==> lex_lt(#[trigger] ov[m].0, e@.0),
            decreases out@.len() - k,
        {
            assert(ov[k as int] == out@[k as int]@);
            k = k + 1;
        }
        proof {
            if k < out@.len() {
                assert(ov[k as int] == out@[k as int]@);
            }
        }
        out.insert(k, e);
        let ghost nv = entry_views(out@);
        assert(nv =~= ov.insert(k as int, e@));
        assert forall|i: int, j: int| 0 <= i < j < nv.len() implies !lex_lt(
            #[trigger] nv[j].0,
            #[trigger] nv[i].0,
        ) by {
            if j < k {
                assert(nv[i] == ov[i] && nv[j] == ov[j]);
            } else if j == k {
                assert(nv[i] == ov[i]);
                assert(lex_lt(ov[i].0, e@.0));
                if lex_lt(e@.0, ov[i].0) {
                    lemma_lex_transitive(e@.0, ov[i].0, e@.0);
                    lemma_lex_irreflexive(e@.0);
                }
            } else if i == k {
                assert(nv[j] == ov[j - 1]);
                assert(!lex_lt(ov[k as int].0, e@.0));
                if lex_lt(ov[j - 1].0, e@.0) {
                    if j - 1 > k {
                        assert(!lex_lt(ov[j - 1].0, ov[k as int].0));
                        if ov[j - 1].0 != ov[k as int].0 {
                            lemma_lex_total(ov[j - 1].0, ov[k as int].0);
                            lemma_lex_transitive(ov[k as int].0, ov[j - 1].0, e@.0);
                        }
                    }
                }
            } else if i < k {
                assert(nv[i] == ov[i] && nv[j] == ov[j - 1]);
            } else {
                assert(nv[i] == ov[i - 1] && nv[j] == ov[j - 1]);
            }
        }
        proof {
            vstd::seq_lib::to_multiset_insert(ov, k as int, e@);
            vstd::seq_lib::to_multiset_build(entry_views(rest@), e@);
        }
        assert(nv.to_multiset().add(entry_views(rest@).to_multiset()) =~= ov.to_multiset().add(
            rv.to_multiset(),
        ));
    }
    assert(entry_views(rest@) =~= Seq::<(Seq<u8>, Seq<u8>)>::empty());
    assert(entry_views(rest@).to_multiset() =~= Multiset::empty());
    assert(entry_views(out@).to_multiset().add(Multiset::empty()) =~= entry_views(out@).to_multiset());
    out
}

proof fn lemma_name_order_unique(x: Seq<(Seq<u8>, Seq<u8>)>, y: Seq<(Seq<u8>, Seq<u8>)>)
    requires
        name_sorted(x),
        name_sorted(y),
        x.to_multiset() == y.to_multiset(),
        distinct_names(x),
    ensures
        x == y,
    decreases x.len(),
{
    broadcast use vstd::seq_lib::group_to_multiset_ensures;

    assert(x.len() == x.to_multiset().len());
    assert(y.len() == y.to_multiset().len());
    if x.len() == 0 {
        assert(x =~= y);
    } else {
        assert(x.to_multiset().count(x[0]) > 0);
        assert(y.contains(x[0]));
        let j = choose|j: int| 0 <= j < y.len() && y[j] == x[0];
        assert(y.to_multiset().count(y[0]) > 0);
        assert(x.contains(y[0]));
        let k = choose|k: int| 0 <= k < x.len() && x[k] == y[0];
        if j > 0 && k > 0 {
            assert(!lex_lt(y[j].0, y[0].0));
            assert(!lex_lt(x[k].0, x[0].0));
            if x[0].0 != y[0].0 {
                lemma_lex_total(x[0].0, y[0].0);
            }
            assert(x[k].0 == x[0].0);
        }
        assert(y[0] == x[0]);
        vstd::seq_lib::to_multiset_remove(x, 0);
        vstd::seq_lib::to_multiset_remove(y, 0);
        assert(x.remove(0) =~= x.skip(1));
        assert(y.remove(0) =~= y.skip(1));
        let xs = x.skip(1);
        let ys = y.skip(1);
        assert(name_sorted(xs)) by {
            assert forall|i: int, j: int| 0 <= i < j < xs.len() implies !lex_lt(
                #[trigger] xs[j].0,
                #[trigger] xs[i].0,
            ) by {
                assert(xs[i] == x[i + 1] && xs[j] == x[j + 1]);
            }
        }
        assert(name_sorted(ys)) by {
            assert forall|i: int, j: int| 0 <= i < j < ys.len() implies !lex_lt(
                #[trigger] ys[j].0,
                #[trigger] ys[i].0,
            ) by {
                assert(ys[i] == y[i + 1] && ys[j] == y[j + 1]);
            }
        }
        assert(distinct_names(xs)) by {
            assert forall|i: int, j: int|
                0 <= i < xs.len() && 0 <= j < xs.len() && i != j implies #[trigger] xs[i].0
                != #[trigger] xs[j].0 by {
                assert(xs[i] == x[i + 1] && xs[j] == x[j + 1]);
            }
        }
        lemma_name_order_unique(xs, ys);
        assert(x =~= y) by {
            assert forall|i: int| 0 <= i < x.len() implies x[i] == y[i] by {
                if i > 0 {
                    assert(x[i] == xs[i - 1] && y[i] == ys[i - 1]);
                }
            }
        }
    }
}

proof fn lemma_distinct_names_kept(a: Seq<(Seq<u8>, Seq<u8>)>, x: Seq<(Seq<u8>, Seq<u8>)>)
    requires
        x.to_multiset() == a.to_multiset(),
        distinct_names(a),
    ensures
        distinct_names(x),
{
    broadcast use vstd::seq_lib::group_to_multiset_ensures;
    broadcast use vstd::multiset::group_multiset_axioms;

    assert forall|i: int, j: int|
        0 <= i < x.len() && 0 <= j < x.len() && i != j implies #[trigger] x[i].0 != #[trigger] x[j].0 by {
        if x[i].0 == x[j].0 {
            assert(x.to_multiset().count(x[i]) > 0);
            assert(a.contains(x[i]));
            let p = choose|p: int| 0 <= p < a.len() && a[p] == x[i];
            assert(x.to_multiset().count(x[j]) > 0);
            assert(a.contains(x[j]));
            let q = choose|q: int| 0 <= q < a.len() && a[q] == x[j];
            if p == q {
                let e = x[i];
                let xr = x.remove(j);
                let m: int = if i < j { i } else { i - 1 };
                assert(xr[m] == e);
                assert(xr.contains(e));
                assert(xr.to_multiset() == x.to_multiset().remove(x[j]));
                assert(xr.to_multiset().count(e) > 0);
                assert(x.to_multiset().count(e) >= 2);
                let ar = a.remove(p);
                assert(ar.to_multiset() == a.to_multiset().remove(a[p]));
                assert(ar.to_multiset().count(e) >= 1);
                assert(ar.contains(e));
                let r = choose|r: int| 0 <= r < ar.len() && ar[r] == e;
                let q2: int = if r < p { r } else { r + 1 };
                assert(a[q2] == e);
                assert(q2 != p);
            }
        }
    }
}

/// Packing does not depend on the order in which staged files were found:
/// two runs over the same files, each putting them in name order first, give
/// the same shards, byte for byte, as long as no two files share a name.
pub proof fn lemma_packing_order_independent(
    a: Seq<(Seq<u8>, Seq<u8>)>,
    b: Seq<(Seq<u8>, Seq<u8>)>,
    x: Seq<(Seq<u8>, Seq<u8>)>,
    y: Seq<(Seq<u8>, Seq<u8>)>,
)
    requires
        a.to_multiset() == b.to_multiset(),
        distinct_names(a),
        in_name_order(x, a),
        in_name_order(y, b),
    ensures
        x == y,
        crate::packer::packed(x) == crate::packer::packed(y),
{
    lemma_distinct_names_kept(a, x);
    lemma_name_order_unique(x, y);
}

} // verus!
