//! The order in which the entries of one directory are visited: ascending by
//! base name, bytewise, as paths that share their parent compare.

use vstd::prelude::*;
use vstd::multiset::Multiset;
use vstd::multiset::lemma_multiset_empty_len;
use vstd::seq_lib::{group_to_multiset_ensures, to_multiset_build, to_multiset_insert, to_multiset_len};
use crate::search::DirEntry;

verus! {

/// `a` comes strictly before `b` in lexicographic byte order.
pub open spec fn lex_lt(a: Seq<u8>, b: Seq<u8>) -> bool
    decreases a.len(),
{
    if a.len() == 0 {
        b.len() > 0
    } else if b.len() == 0 {
        false
    } else if a[0] != b[0] {
        a[0] < b[0]
    } else {
        lex_lt(a.subrange(1, a.len() as int), b.subrange(1, b.len() as int))
    }
}

pub open spec fn lex_le(a: Seq<u8>, b: Seq<u8>) -> bool {
    a == b || lex_lt(a, b)
}

/// Every entry's name is at most the names of those after it.
pub open spec fn sorted_by_name(s: Seq<DirEntry>) -> bool {
    forall|i: int, j: int| 0 <= i < j < s.len() ==> lex_le(s[i].name@, s[j].name@)
}

proof fn lemma_tail_eq(a: Seq<u8>, b: Seq<u8>)
    requires
        a.len() > 0,
        b.len() > 0,
        a[0] == b[0],
        a.subrange(1, a.len() as int) == b.subrange(1, b.len() as int),
    ensures
        a == b,
{
    assert(a.subrange(1, a.len() as int).len() == a.len() - 1);
    assert(b.subrange(1, b.len() as int).len() == b.len() - 1);
    assert(a.len() == b.len());
    assert forall|k: int| 0 <= k < a.len() implies a[k] == b[k] by {
        if k > 0 {
            assert(a[k] == a.subrange(1, a.len() as int)[k - 1]);
            assert(b[k] == b.subrange(1, b.len() as int)[k - 1]);
        }
    }
    assert(a =~= b);
}

/// Of two byte strings one comes first, or they are equal, and not both ways.
pub proof fn lemma_lex_total(a: Seq<u8>, b: Seq<u8>)
    ensures
        a == b || lex_lt(a, b) || lex_lt(b, a),
        !(lex_lt(a, b) && lex_lt(b, a)),
        !lex_lt(a, a),
    decreases a.len(),
{
    if a.len() > 0 && b.len() > 0 && a[0] == b[0] {
        lemma_lex_total(a.subrange(1, a.len() as int), b.subrange(1, b.len() as int));
        if a.subrange(1, a.len() as int) == b.subrange(1, b.len() as int) {
            lemma_tail_eq(a, b);
        }
    } else if a.len() > 0 {
        lemma_lex_total(a.subrange(1, a.len() as int), a.subrange(1, a.len() as int));
    } else if b.len() == 0 {
        assert(a =~= b);
    }
}

/// Lexicographic order is transitive.
pub proof fn lemma_lex_trans(a: Seq<u8>, b: Seq<u8>, c: Seq<u8>)
    requires
        lex_lt(a, b),
        lex_lt(b, c),
    ensures
        lex_lt(a, c),
    decreases a.len(),
{
    if a.len() > 0 && b.len() > 0 && c.len() > 0 && a[0] == b[0] && b[0] == c[0] {
        lemma_lex_trans(
            a.subrange(1, a.len() as int),
            b.subrange(1, b.len() as int),
            c.subrange(1, c.len() as int),
        );
    }
}

/// No two entries share a name, as in one directory.
pub open spec fn names_distinct(s: Seq<DirEntry>) -> bool {
    forall|i: int, j: int| 0 <= i < s.len() && 0 <= j < s.len() && i != j ==> s[i].name@ != s[j].name@
}

/// The visit order does not depend on the order in which a directory was
/// listed: two name-sorted orderings of the same entries, whose names are
/// distinct, are the same sequence.
pub proof fn lemma_visit_order_unique(x: Seq<DirEntry>, y: Seq<DirEntry>)
    requires
        sorted_by_name(x),
        sorted_by_name(y),
        names_distinct(x),
        x.to_multiset() == y.to_multiset(),
    ensures
        x == y,
    decreases x.len(),
{
    broadcast use group_to_multiset_ensures;

    if x.len() == 0 {
        assert(y.len() == 0);
        assert(x =~= y);
    } else {
        assert(x.to_multiset().len() == x.len());
        assert(y.to_multiset().len() == y.len());
        assert(y.len() == x.len());
        assert(x.to_multiset().count(x[0]) > 0);
        assert(y.contains(x[0]));
        let j = choose|j: int| 0 <= j < y.len() && y[j] == x[0];
        assert(y.to_multiset().count(y[0]) > 0);
        assert(x.contains(y[0]));
        let i = choose|i: int| 0 <= i < x.len() && x[i] == y[0];
        let a = x[0].name@;
        let b = y[0].name@;
        if j > 0 {
            assert(lex_le(b, a));
        }
        if i > 0 {
            assert(lex_le(a, b));
        }
        lemma_lex_total(a, b);
        assert(a == b);
        assert(i == 0);
        assert(x[0] == y[0]);
        let xs = x.subrange(1, x.len() as int);
        let ys = y.subrange(1, y.len() as int);
        assert(x.remove(0) =~= xs);
        assert(y.remove(0) =~= ys);
        assert(xs.to_multiset() == ys.to_multiset());
        assert(sorted_by_name(xs)) by {
            assert forall|p: int, q: int| 0 <= p < q < xs.len() implies lex_le(xs[p].name@, xs[q].name@) by {
                assert(xs[p] == x[p + 1] && xs[q] == x[q + 1]);
            }
        }
        assert(sorted_by_name(ys)) by {
            assert forall|p: int, q: int| 0 <= p < q < ys.len() implies lex_le(ys[p].name@, ys[q].name@) by {
                assert(ys[p] == y[p + 1] && ys[q] == y[q + 1]);
            }
        }
        assert(names_distinct(xs)) by {
            assert forall|p: int, q: int| 0 <= p < xs.len() && 0 <= q < xs.len() && p != q implies xs[p].name@ != xs[q].name@ by {
                assert(xs[p] == x[p + 1] && xs[q] == x[q + 1]);
            }
        }
        lemma_visit_order_unique(xs, ys);
        assert(x =~= y) by {
            assert forall|k: int| 0 <= k < x.len() implies x[k] == y[k] by {
                if k > 0 {
                    assert(x[k] == xs[k - 1] && y[k] == ys[k - 1]);
                }
            }
        }
    }
}

/// Whether `a` comes strictly before `b`.
pub fn name_lt(a: &Vec<u8>, b: &Vec<u8>) -> (r: bool)
    ensures
        r == lex_lt(a@, b@),
{
    let mut i: usize = 0;
    assert(a@.subrange(0, a@.len() as int) =~= a@);
    assert(b@.subrange(0, b@.len() as int) =~= b@);
    loop
        invariant
            i <= a.len(),
            i <= b.len(),
            lex_lt(a@, b@) == lex_lt(
                a@.subrange(i as int, a@.len() as int),
                b@.subrange(i as int, b@.len() as int),
            ),
        decreases a.len() - i,
    {
        let ghost sa = a@.subrange(i as int, a@.len() as int);
        let ghost sb = b@.subrange(i as int, b@.len() as int);
        if i == a.len() {
            return i < b.len();
        }
        if i == b.len() {
            return false;
        }
        assert(sa[0] == a@[i as int] && sb[0] == b@[i as int]);
        if a[i] != b[i] {
            return a[i] < b[i];
        }
        assert(sa.subrange(1, sa.len() as int) =~= a@.subrange(i + 1, a@.len() as int));
        assert(sb.subrange(1, sb.len() as int) =~= b@.subrange(i + 1, b@.len() as int));
        i = i + 1;
    }
}

/// The entries of one directory in visit order: the same entries, ascending by
/// name.
pub fn order_entries(v: Vec<DirEntry>) -> (r: Vec<DirEntry>)
    ensures
        sorted_by_name(r@),
        r@.to_multiset() == v@.to_multiset(),
{
    let mut rest = v;
    let mut r: Vec<DirEntry> = Vec::new();
    proof {
        to_multiset_len(r@);
        lemma_multiset_empty_len(r@.to_multiset());
        assert(r@.to_multiset().add(rest@.to_multiset()) =~= v@.to_multiset());
    }
    while rest.len() > 0
        invariant
            sorted_by_name(r@),
            r@.to_multiset().add(rest@.to_multiset()) == v@.to_multiset(),
        decreases rest.len(),
    {
        let ghost before = rest@;
        let x = rest.pop().unwrap();
        proof {
            broadcast use to_multiset_build;
            assert(before == rest@.push(x));
        }
        // Entries are taken from the back, so an equal name goes before the
        // ones taken earlier.
        let mut p: usize = 0;
        while p < r.len() && name_lt(&r[p].name, &x.name)
            invariant
                p <= r.len(),
                forall|k: int| 0 <= k < p ==> lex_lt(r@[k].name@, x.name@),
            decreases r.len() - p,
        {
            p = p + 1;
        }
        proof {
            assert forall|k: int| p <= k < r.len() implies lex_le(x.name@, r@[k].name@) by {
                lemma_lex_total(r@[p as int].name@, x.name@);
                assert(!lex_lt(r@[p as int].name@, x.name@));
                assert(lex_le(x.name@, r@[p as int].name@));
                if k > p {
                    assert(lex_le(r@[p as int].name@, r@[k].name@));
                    if lex_lt(r@[p as int].name@, r@[k].name@) && lex_lt(
                        x.name@,
                        r@[p as int].name@,
                    ) {
                        lemma_lex_trans(x.name@, r@[p as int].name@, r@[k].name@);
                    }
                }
            }
        }
        let ghost old_r = r@;
        let ghost xg = x;
        r.insert(p, x);
        proof {
            broadcast use to_multiset_insert;
            assert(r@ == old_r.insert(p as int, xg));
            assert forall|i: int, j: int| 0 <= i < j < r@.len() implies lex_le(
                r@[i].name@,
                r@[j].name@,
            ) by {
                if i < p && j > p {
                    let a = old_r[i].name@;
                    let c = old_r[j - 1].name@;
                    if lex_lt(xg.name@, c) {
                        lemma_lex_trans(a, xg.name@, c);
                    }
                }
            }
            assert(r@.to_multiset().add(rest@.to_multiset()) =~= v@.to_multiset());
        }
    }
    proof {
        to_multiset_len(rest@);
        lemma_multiset_empty_len(rest@.to_multiset());
        assert(r@.to_multiset() =~= r@.to_multiset().add(rest@.to_multiset()));
    }
    r
}

} // verus!
