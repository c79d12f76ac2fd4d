//! Sorting strings into strictly increasing order, dropping repeats
//! (`sort` followed by `dedup`).

use vstd::prelude::*;
use crate::text::{str_order, Order, order_str, strs_view, lemma_str_order_flip, lemma_str_order_trans, lemma_str_order_equal};

verus! {

/// Strictly increasing in the order of strings.
pub open spec fn strictly_sorted(s: Seq<Seq<char>>) -> bool {
    forall|i: int, j: int| 0 <= i < j < s.len() ==> str_order(#[trigger] s[i], #[trigger] s[j]) == Order::Less
}

/// The same strings, each once, in increasing order.
pub open spec fn sorted_set_of(t: Seq<Seq<char>>, s: Seq<Seq<char>>) -> bool {
    &&& strictly_sorted(t)
    &&& forall|x: Seq<char>| t.contains(x) <==> s.contains(x)
}

/// Inserts `x` into a strictly sorted vector unless it is already there.
fn insert_sorted(v: &mut Vec<String>, x: &str)
    requires
        strictly_sorted(strs_view(old(v)@)),
    ensures
        strictly_sorted(strs_view(final(v)@)),
        forall|y: Seq<char>| strs_view(final(v)@).contains(y) <==> (strs_view(old(v)@).contains(y) || y == x@),
{
    let ghost s0 = strs_view(v@);
    let mut i: usize = 0;
    while i < v.len()
        invariant
            i <= v@.len(),
            s0 == strs_view(v@),
            strictly_sorted(s0),
            forall|k: int| 0 <= k < i ==> str_order(#[trigger] s0[k], x@) == Order::Less,
        ensures
            i <= v@.len(),
            s0 == strs_view(v@),
            forall|k: int| 0 <= k < i ==> str_order(#[trigger] s0[k], x@) == Order::Less,
            i == v@.len() || str_order(s0[i as int], x@) == Order::Greater,
        decreases v@.len() - i,
    {
        let o = order_str(v[i].as_str(), x);
        assert(s0[i as int] == v@[i as int]@);
        match o {
            Order::Less => {},
            Order::Equal => {
                proof {
                    lemma_str_order_equal(s0[i as int], x@);
                    assert forall|y: Seq<char>| strs_view(v@).contains(y) <==> (s0.contains(y) || y == x@) by {
                        if y == x@ {
                            assert(s0[i as int] == y);
                        }
                    }
                }
                return;
            },
            Order::Greater => {
                break;
            },
        }
        i = i + 1;
    }
    let ghost pos = i as int;
    proof {
        assert(pos == s0.len() || str_order(s0[pos], x@) == Order::Greater);
    }
    v.insert(i, crate::text::to_string(x));
    proof {
        let s1 = strs_view(v@);
        assert(s1.len() == s0.len() + 1);
        assert(s1[pos] == x@);
        assert forall|k: int| 0 <= k < pos implies s1[k] == s0[k] by {}
        assert forall|k: int| pos < k < s1.len() implies s1[k] == s0[k - 1] by {}
        assert forall|a: int, b: int| 0 <= a < b < s1.len() implies str_order(#[trigger] s1[a], #[trigger] s1[b]) == Order::Less by {
            if b == pos {
                assert(str_order(s0[a], x@) == Order::Less);
            } else if a == pos {
                assert(b - 1 >= pos);
                lemma_str_order_flip(s0[pos], x@);
                if b - 1 > pos {
                    assert(str_order(s0[pos], s0[b - 1]) == Order::Less);
                    lemma_str_order_trans(x@, s0[pos], s0[b - 1]);
                }
            } else if a < pos && b > pos {
                assert(str_order(s0[a], s0[b - 1]) == Order::Less);
            } else if a > pos {
                assert(str_order(s0[a - 1], s0[b - 1]) == Order::Less);
            }
        }
        assert forall|y: Seq<char>| s1.contains(y) <==> (s0.contains(y) || y == x@) by {
            if s1.contains(y) {
                let k = choose|k: int| 0 <= k < s1.len() && s1[k] == y;
                if k < pos {
                    assert(s0[k] == y);
                } else if k > pos {
                    assert(s0[k - 1] == y);
                }
            }
            if s0.contains(y) {
                let k = choose|k: int| 0 <= k < s0.len() && s0[k] == y;
                if k < pos {
                    assert(s1[k] == y);
                } else {
                    assert(s1[k + 1] == y);
                }
            }
            if y == x@ {
                assert(s1[pos] == y);
            }
        }
    }
}

/// The strings of `v`, sorted, each once.
pub fn sort_dedup(v: &Vec<String>) -> (r: Vec<String>)
    ensures
        sorted_set_of(strs_view(r@), strs_view(v@)),
        strs_view(r@) == sorted_dedup_of(strs_view(v@)),
{
    let mut out: Vec<String> = Vec::new();
    let mut i: usize = 0;
    while i < v.len()
        invariant
            i <= v@.len(),
            strictly_sorted(strs_view(out@)),
            forall|y: Seq<char>| strs_view(out@).contains(y) <==> strs_view(v@).subrange(0, i as int).contains(y),
        decreases v@.len() - i,
    {
        insert_sorted(&mut out, v[i].as_str());
        proof {
            let w = strs_view(v@).subrange(0, i + 1);
            assert forall|y: Seq<char>| w.contains(y) <==> (strs_view(v@).subrange(0, i as int).contains(y) || y == v@[i as int]@) by {
                if w.contains(y) {
                    let k = choose|k: int| 0 <= k < w.len() && w[k] == y;
                    if k < i {
                        assert(strs_view(v@).subrange(0, i as int)[k] == y);
                    }
                }
                if strs_view(v@).subrange(0, i as int).contains(y) {
                    let k = choose|k: int| 0 <= k < i && strs_view(v@).subrange(0, i as int)[k] == y;
                    assert(w[k] == y);
                }
                if y == v@[i as int]@ {
                    assert(w[i as int] == y);
                }
            }
        }
        i = i + 1;
    }
    assert(strs_view(v@).subrange(0, v@.len() as int) =~= strs_view(v@));
    proof {
        lemma_sorted_dedup_of(strs_view(out@), strs_view(v@));
    }
    out
}

/// The strings of `s`, sorted, each once.
pub open spec fn sorted_dedup_of(s: Seq<Seq<char>>) -> Seq<Seq<char>> {
    choose|t: Seq<Seq<char>>| sorted_set_of(t, s)
}

proof fn lemma_not_less_self(a: Seq<char>)
    ensures
        str_order(a, a) != Order::Less,
{
    lemma_str_order_equal(a, a);
}

/// Two strictly sorted sequences with the same elements are the same.
pub proof fn lemma_sorted_unique(t1: Seq<Seq<char>>, t2: Seq<Seq<char>>)
    requires
        strictly_sorted(t1),
        strictly_sorted(t2),
        forall|x: Seq<char>| t1.contains(x) <==> t2.contains(x),
    ensures
        t1 == t2,
    decreases t1.len(),
{
    if t1.len() == 0 {
        if t2.len() > 0 {
            assert(t2.contains(t2[0]));
        }
        assert(t1 =~= t2);
    } else {
        assert(t1.contains(t1[0]));
        assert(t2.len() > 0);
        assert(t2.contains(t2[0]));
        let j = choose|j: int| 0 <= j < t2.len() && t2[j] == t1[0];
        let i = choose|i: int| 0 <= i < t1.len() && t1[i] == t2[0];
        if j > 0 {
            assert(str_order(t2[0], t2[j]) == Order::Less);
            if i > 0 {
                assert(str_order(t1[0], t1[i]) == Order::Less);
                lemma_str_order_trans(t1[0], t2[0], t1[0]);
            } else {
                lemma_not_less_self(t1[0]);
            }
            lemma_not_less_self(t1[0]);
            assert(false);
        }
        let r1 = t1.drop_first();
        let r2 = t2.drop_first();
        assert forall|i: int, k: int| 0 <= i < k < r1.len() implies str_order(#[trigger] r1[i], #[trigger] r1[k]) == Order::Less by {
            assert(r1[i] == t1[i + 1] && r1[k] == t1[k + 1]);
        }
        assert forall|i: int, k: int| 0 <= i < k < r2.len() implies str_order(#[trigger] r2[i], #[trigger] r2[k]) == Order::Less by {
            assert(r2[i] == t2[i + 1] && r2[k] == t2[k + 1]);
        }
        assert forall|x: Seq<char>| r1.contains(x) <==> r2.contains(x) by {
            if r1.contains(x) {
                let a = choose|a: int| 0 <= a < r1.len() && r1[a] == x;
                assert(t1[a + 1] == x);
                assert(t2.contains(x));
                let b = choose|b: int| 0 <= b < t2.len() && t2[b] == x;
                if b == 0 {
                    assert(str_order(t1[0], t1[a + 1]) == Order::Less);
                    lemma_not_less_self(x);
                }
                assert(r2[b - 1] == x);
            }
            if r2.contains(x) {
                let a = choose|a: int| 0 <= a < r2.len() && r2[a] == x;
                assert(t2[a + 1] == x);
                assert(t1.contains(x));
                let b = choose|b: int| 0 <= b < t1.len() && t1[b] == x;
                if b == 0 {
                    assert(str_order(t2[0], t2[a + 1]) == Order::Less);
                    lemma_not_less_self(x);
                }
                assert(r1[b - 1] == x);
            }
        }
        lemma_sorted_unique(r1, r2);
        assert(t1 =~= t2) by {
            assert forall|k: int| 0 <= k < t1.len() implies t1[k] == t2[k] by {
                if k > 0 {
                    assert(t1[k] == r1[k - 1]);
                    assert(t2[k] == r2[k - 1]);
                }
            }
        }
    }
}

/// The sorted, repeat-free form is determined by the elements.
pub proof fn lemma_sorted_dedup_of(t: Seq<Seq<char>>, s: Seq<Seq<char>>)
    requires
        sorted_set_of(t, s),
    ensures
        sorted_dedup_of(s) == t,
{
    let c = sorted_dedup_of(s);
    assert(sorted_set_of(c, s));
    lemma_sorted_unique(c, t);
}

} // verus!
