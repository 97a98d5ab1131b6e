//! Stable sorting by an integer rank, with the permutation made explicit.

use vstd::prelude::*;

verus! {

/// Values ordered by an integer rank.
pub trait Ranked: Sized {
    spec fn rank(&self) -> int;

    /// Whether `self` ranks no higher than `other`.
    fn rank_le(&self, other: &Self) -> (r: bool)
        ensures
            r == (self.rank() <= other.rank()),
    ;
}

/// `s` is ordered by nondecreasing `key`.
pub open spec fn sorted_by<T>(s: Seq<T>, key: spec_fn(T) -> int) -> bool {
    forall|a: int, b: int| 0 <= a < b < s.len() ==> key(#[trigger] s[a]) <= key(#[trigger] s[b])
}

/// `p` shows `out` to be a rearrangement of `inp` (`out[a] == inp[p[a]]`,
/// `p` one-to-one) that keeps elements of equal key in their original order.
pub open spec fn stable_witness<T>(out: Seq<T>, inp: Seq<T>, key: spec_fn(T) -> int, p: Seq<int>) -> bool {
    &&& out.len() == inp.len()
    &&& p.len() == out.len()
    &&& forall|a: int| 0 <= a < p.len() ==> 0 <= #[trigger] p[a] < inp.len() && out[a] == inp[p[a]]
    &&& forall|a: int, b: int| 0 <= a < b < p.len() ==> #[trigger] p[a] != #[trigger] p[b]
    &&& forall|a: int, b: int|
        0 <= a < b < p.len() && key(out[a]) == key(out[b]) ==> #[trigger] p[a] < #[trigger] p[b]
}

/// `out` is `inp` sorted by `key`, elements of equal key keeping their order.
pub open spec fn is_stable_sort<T>(out: Seq<T>, inp: Seq<T>, key: spec_fn(T) -> int) -> bool {
    &&& sorted_by(out, key)
    &&& exists|p: Seq<int>| stable_witness(out, inp, key, p)
}

/// A one-to-one witness reaches every position: each element of `inp`
/// appears in `out`.
pub proof fn lemma_witness_onto<T>(out: Seq<T>, inp: Seq<T>, key: spec_fn(T) -> int, p: Seq<int>, m: int)
    requires
        stable_witness(out, inp, key, p),
        0 <= m < inp.len(),
    ensures
        exists|a: int| 0 <= a < p.len() && p[a] == m,
        out.contains(inp[m]),
{
    let n = inp.len() as int;
    assert(p.no_duplicates()) by {
        assert forall|a: int, b: int| 0 <= a < p.len() && 0 <= b < p.len() && a != b implies p[a]
            != p[b] by {
            if a < b {
                assert(p[a] != p[b]);
            } else {
                assert(p[b] != p[a]);
            }
        }
    }
    p.unique_seq_to_set();
    vstd::set_lib::lemma_int_range(0, n);
    assert(p.to_set().subset_of(vstd::set_lib::set_int_range(0, n))) by {
        assert forall|x: int| p.to_set().contains(x) implies vstd::set_lib::set_int_range(0, n).contains(
            x,
        ) by {
            let a = choose|a: int| 0 <= a < p.len() && p[a] == x;
            assert(0 <= p[a] < n);
        }
    }
    vstd::seq_lib::seq_to_set_is_finite(p);
    vstd::set_lib::lemma_subset_equality(p.to_set(), vstd::set_lib::set_int_range(0, n));
    assert(vstd::set_lib::set_int_range(0, n).contains(m));
    assert(p.to_set().contains(m));
    let a = choose|a: int| 0 <= a < p.len() && p[a] == m;
    assert(out[a] == inp[m]);
}

/// Stable sorting commutes with a map that keeps the key.
pub proof fn lemma_stable_sort_map<A, B>(
    out: Seq<A>,
    inp: Seq<A>,
    ka: spec_fn(A) -> int,
    f: spec_fn(A) -> B,
    kb: spec_fn(B) -> int,
)
    requires
        is_stable_sort(out, inp, ka),
        forall|x: A| #[trigger] kb(f(x)) == ka(x),
    ensures
        is_stable_sort(out.map_values(f), inp.map_values(f), kb),
{
    let p = choose|p: Seq<int>| stable_witness(out, inp, ka, p);
    let mo = out.map_values(f);
    let mi = inp.map_values(f);
    assert forall|a: int, b: int| 0 <= a < b < mo.len() implies kb(#[trigger] mo[a]) <= kb(
        #[trigger] mo[b],
    ) by {
        assert(kb(f(out[a])) == ka(out[a]));
        assert(kb(f(out[b])) == ka(out[b]));
    }
    assert forall|a: int| 0 <= a < p.len() implies 0 <= #[trigger] p[a] < mi.len() && mo[a]
        == mi[p[a]] by {}
    assert forall|a: int, b: int|
        0 <= a < b < p.len() && kb(mo[a]) == kb(mo[b]) implies #[trigger] p[a] < #[trigger] p[b] by {
        assert(kb(f(out[a])) == ka(out[a]));
        assert(kb(f(out[b])) == ka(out[b]));
    }
    assert(stable_witness(mo, mi, kb, p));
}

/// Sorts `v` by rank, keeping elements of equal rank in their order.
pub fn sort_stable<T: Ranked>(v: &mut Vec<T>)
    ensures
        is_stable_sort(final(v)@, old(v)@, |x: T| x.rank()),
{
    let ghost key = |x: T| x.rank();
    let ghost orig = v@;
    let n = v.len();
    let ghost mut p: Seq<int> = Seq::new(n as nat, |k: int| k);
    let mut i: usize = 0;
    while i < n
        invariant
            n == v.len(),
            orig.len() == n,
            orig == old(v)@,
            key == (|x: T| x.rank()),
            i <= n,
            p.len() == n,
            forall|a: int| 0 <= a < n ==> #[trigger] v@[a] == orig[p[a]],
            forall|a: int| 0 <= a < i ==> 0 <= #[trigger] p[a] < i,
            forall|a: int| i <= a < n ==> #[trigger] p[a] == a,
            forall|a: int, b: int| 0 <= a < b < i ==> #[trigger] p[a] != #[trigger] p[b],
            forall|a: int, b: int|
                0 <= a < b < i ==> (#[trigger] v@[a]).rank() <= (#[trigger] v@[b]).rank(),
            forall|a: int, b: int|
                0 <= a < b < i && v@[a].rank() == v@[b].rank() ==> #[trigger] p[a] < #[trigger] p[b],
        decreases n - i,
    {
        let ghost before = v@;
        let ghost pb = p;
        let x = v.remove(i);
        let mut j: usize = i;
        while j > 0 && !v[j - 1].rank_le(&x)
            invariant
                0 <= j <= i < n,
                v.len() == n - 1,
                v@ == before.remove(i as int),
                x == before[i as int],
                forall|a: int| j <= a < i ==> (#[trigger] v@[a]).rank() > x.rank(),
            decreases j,
        {
            j = j - 1;
        }
        v.insert(j, x);
        proof {
            p = pb.remove(i as int).insert(j as int, pb[i as int]);
            assert(pb[i as int] == i);
            assert forall|a: int| 0 <= a < n implies #[trigger] v@[a] == orig[p[a]] by {
                if a < j {
                } else if a == j {
                } else if a <= i {
                    assert(v@[a] == before[a - 1]);
                } else {
                }
            }
            assert forall|a: int| 0 <= a < i + 1 implies 0 <= #[trigger] p[a] < i + 1 by {
                if a < j {
                } else if a == j {
                } else {
                    assert(p[a] == pb[a - 1]);
                }
            }
            assert forall|a: int| i + 1 <= a < n implies #[trigger] p[a] == a by {
                assert(p[a] == pb[a]);
            }
            assert forall|a: int, b: int| 0 <= a < b < i + 1 implies #[trigger] p[a]
                != #[trigger] p[b] by {
                let oa = if a < j { a } else if a == j { i as int } else { a - 1 };
                let ob = if b < j { b } else if b == j { i as int } else { b - 1 };
                assert(p[a] == pb[oa]);
                assert(p[b] == pb[ob]);
                if oa != i && ob != i {
                    if oa < ob {
                        assert(pb[oa] != pb[ob]);
                    } else {
                        assert(pb[ob] != pb[oa]);
                    }
                }
            }
            assert forall|a: int, b: int| 0 <= a < b < i + 1 implies (
            #[trigger] v@[a]).rank() <= (#[trigger] v@[b]).rank() by {
                let oa = if a < j { a } else if a == j { i as int } else { a - 1 };
                let ob = if b < j { b } else if b == j { i as int } else { b - 1 };
                assert(v@[a] == before[oa]);
                assert(v@[b] == before[ob]);
                if a == j {
                    assert(before[ob] == v@[b]);
                } else if b == j {
                    if j > 0 {
                        assert(before[j - 1] == before.remove(i as int)[j - 1]);
                        if oa < j - 1 {
                            assert(before[oa].rank() <= before[j - 1].rank());
                        }
                    }
                } else {
                }
            }
            assert forall|a: int, b: int|
                0 <= a < b < i + 1 && v@[a].rank() == v@[b].rank() implies #[trigger] p[a]
                < #[trigger] p[b] by {
                let oa = if a < j { a } else if a == j { i as int } else { a - 1 };
                let ob = if b < j { b } else if b == j { i as int } else { b - 1 };
                assert(p[a] == pb[oa]);
                assert(p[b] == pb[ob]);
                assert(v@[a] == before[oa]);
                assert(v@[b] == before[ob]);
                if a == j {
                    assert(v@[b].rank() > x.rank()) by {
                        assert(v@[b] == before.remove(i as int)[b - 1]);
                    }
                } else if b == j {
                    assert(pb[oa] < i);
                } else {
                    assert(oa < ob);
                }
            }
        }
        i = i + 1;
    }
    proof {
        assert forall|a: int, b: int| 0 <= a < b < v@.len() implies key(#[trigger] v@[a]) <= key(
            #[trigger] v@[b],
        ) by {}
        assert forall|a: int| 0 <= a < p.len() implies 0 <= #[trigger] p[a] < orig.len() && v@[a]
            == orig[p[a]] by {}
        assert forall|a: int, b: int|
            0 <= a < b < p.len() && key(v@[a]) == key(v@[b]) implies #[trigger] p[a]
            < #[trigger] p[b] by {}
        assert(stable_witness(v@, orig, key, p));
    }
}

} // verus!
