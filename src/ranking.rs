use vstd::prelude::*;
use vstd::set_lib::{lemma_int_range, lemma_len_subset, set_int_range};

verus! {

/// The key under which IEEE-754 single-precision bit patterns sort in the standard's total
/// order (the order of `f32::total_cmp`): negative values reversed below positive ones.
/// On numbers that are not NaN it agrees with `<`, but for -0 coming before +0.
pub open spec fn total_order_key(bits: u32) -> int {
    if bits >= 0x8000_0000 {
        0xFFFF_FFFF - bits
    } else {
        bits + 0x8000_0000
    }
}

/// `total_order_key` of `bits`.
pub fn total_order_key_exec(bits: u32) -> (r: u32)
    ensures
        r as int == total_order_key(bits),
{
    if bits >= 0x8000_0000 {
        0xFFFF_FFFF - bits
    } else {
        bits + 0x8000_0000
    }
}

/// Position `p` comes before position `q`: a smaller key, or an equal key and an earlier
/// position (the order of a stable sort by key).
pub open spec fn ranks_before(keys: Seq<u64>, p: int, q: int) -> bool {
    keys[p] < keys[q] || (keys[p] == keys[q] && p < q)
}

spec fn comes_after(keys: Seq<u64>, has_last: bool, last: int, p: int) -> bool {
    !has_last || ranks_before(keys, last, p)
}

/// `r` lists the first `min(k, keys.len())` positions of `keys` in the order of a stable
/// ascending sort by key.
pub open spec fn is_ranking(keys: Seq<u64>, k: int, r: Seq<usize>) -> bool {
    &&& r.len() == if k < keys.len() { k } else { keys.len() as int }
    &&& forall|i: int| 0 <= i < r.len() ==> r[i] < keys.len()
    &&& forall|i: int, j: int| 0 <= i < j < r.len() ==> ranks_before(keys, r[i] as int, r[j] as int)
    &&& forall|q: int, i: int|
        0 <= q < keys.len() && !r.contains(q as usize) && 0 <= i < r.len() ==> #[trigger] ranks_before(keys, r[i] as int, q)
}

proof fn lemma_missing_position(r: Seq<usize>, n: int)
    requires
        0 <= r.len() < n <= usize::MAX,
        forall|i: int| 0 <= i < r.len() ==> r[i] < n,
        r.no_duplicates(),
    ensures
        exists|q: int| 0 <= q < n && !#[trigger] r.contains(q as usize),
{
    let s = r.map_values(|x: usize| x as int);
    assert(s.no_duplicates()) by {
        assert forall|i: int, j: int| 0 <= i < s.len() && 0 <= j < s.len() && i != j implies s[i] != s[j] by {
            assert(r[i] != r[j]);
        }
    }
    s.unique_seq_to_set();
    if forall|q: int| 0 <= q < n ==> #[trigger] r.contains(q as usize) {
        lemma_int_range(0, n);
        assert(set_int_range(0, n).subset_of(s.to_set())) by {
            assert forall|q: int| set_int_range(0, n).contains(q) implies s.to_set().contains(q) by {
                assert(r.contains(q as usize));
                let i = choose|i: int| 0 <= i < r.len() && r[i] == q as usize;
                assert(s[i] == q);
            }
        }
        assert(s.to_set().subset_of(set_int_range(0, n))) by {
            assert forall|x: int| s.to_set().contains(x) implies set_int_range(0, n).contains(x) by {
                let i = choose|i: int| 0 <= i < s.len() && s[i] == x;
                assert(r[i] < n);
            }
        }
        lemma_len_subset(set_int_range(0, n), s.to_set());
    }
}

/// A ranking of all positions lists every position.
pub proof fn lemma_full_ranking(keys: Seq<u64>, k: int, r: Seq<usize>)
    requires
        is_ranking(keys, k, r),
        r.len() == keys.len(),
        keys.len() <= usize::MAX,
    ensures
        forall|q: int| 0 <= q < keys.len() ==> #[trigger] r.contains(q as usize),
{
    let n = keys.len() as int;
    assert forall|q: int| 0 <= q < n implies #[trigger] r.contains(q as usize) by {
        if !r.contains(q as usize) {
            // r would then hold n distinct values out of the n - 1 others
            let s = r.map_values(|x: usize| x as int);
            assert(s.no_duplicates()) by {
                assert forall|i: int, j: int| 0 <= i < s.len() && 0 <= j < s.len() && i != j implies s[i] != s[j] by {
                    if i < j {
                        assert(ranks_before(keys, r[i] as int, r[j] as int));
                    } else {
                        assert(ranks_before(keys, r[j] as int, r[i] as int));
                    }
                }
            }
            s.unique_seq_to_set();
            let others = set_int_range(0, n).remove(q);
            lemma_int_range(0, n);
            assert(s.to_set().subset_of(others)) by {
                assert forall|x: int| s.to_set().contains(x) implies others.contains(x) by {
                    let i = choose|i: int| 0 <= i < s.len() && s[i] == x;
                    assert(r[i] < n);
                    assert(r[i] != q as usize);
                }
            }
            lemma_len_subset(s.to_set(), others);
        }
    }
}

/// The positions of the `k` smallest keys, smallest first, ties in order of position.
pub fn rank_ascending(keys: &Vec<u64>, k: usize) -> (r: Vec<usize>)
    ensures
        is_ranking(keys@, k as int, r@),
{
    let n = keys.len();
    let want = if k < n { k } else { n };
    let mut r: Vec<usize> = Vec::new();
    while r.len() < want
        invariant
            n == keys@.len(),
            want <= n,
            want == if k < n { k } else { n },
            r@.len() <= want,
            forall|i: int| 0 <= i < r@.len() ==> r@[i] < n,
            forall|i: int, j: int| 0 <= i < j < r@.len() ==> ranks_before(keys@, r@[i] as int, r@[j] as int),
            forall|q: int, i: int|
                0 <= q < n && !r@.contains(q as usize) && 0 <= i < r@.len() ==> #[trigger] ranks_before(keys@, r@[i] as int, q),
        decreases want - r@.len(),
    {
        proof {
            assert(r@.no_duplicates()) by {
                assert forall|i: int, j: int| 0 <= i < r@.len() && 0 <= j < r@.len() && i != j implies r@[i] != r@[j] by {
                    if i < j {
                        assert(ranks_before(keys@, r@[i] as int, r@[j] as int));
                    } else {
                        assert(ranks_before(keys@, r@[j] as int, r@[i] as int));
                    }
                }
            }
            lemma_missing_position(r@, n as int);
        }
        let has_last = r.len() > 0;
        let last: usize = if has_last { r[r.len() - 1] } else { 0 };
        // the smallest position that comes after `last`
        let mut best: usize = n;
        let mut q: usize = 0;
        while q < n
            invariant
                n == keys@.len(),
                q <= n,
                has_last == (r@.len() > 0),
                has_last ==> last == r@[r@.len() - 1] && last < n,
                best == n || (best < q && comes_after(keys@, has_last, last as int, best as int)),
                forall|p: int| 0 <= p < q && #[trigger] comes_after(keys@, has_last, last as int, p) ==> best < n
                    && (p == best || ranks_before(keys@, best as int, p)),
            decreases n - q,
        {
            let ghost best0 = best;
            let after_last = !has_last || keys[last] < keys[q] || (keys[last] == keys[q] && last < q);
            if after_last {
                if best == n || keys[q] < keys[best] {
                    best = q;
                }
            }
            proof {
                assert forall|p: int| 0 <= p < q + 1 && #[trigger] comes_after(keys@, has_last, last as int, p) implies best < n
                    && (p == best || ranks_before(keys@, best as int, p)) by {
                    if p < q {
                        assert(best0 < n && (p == best0 || ranks_before(keys@, best0 as int, p)));
                    }
                }
            }
            q = q + 1;
        }
        assert(forall|p: int| 0 <= p < n && #[trigger] comes_after(keys@, has_last, last as int, p) ==> best < n
            && (p == best || ranks_before(keys@, best as int, p)));
        proof {
            let missing = choose|q: int| 0 <= q < n && !#[trigger] r@.contains(q as usize);
            if has_last {
                assert(ranks_before(keys@, r@[r@.len() - 1] as int, missing));
            }
            assert(0 <= missing < n && comes_after(keys@, has_last, last as int, missing));
            assert(best < n);
            if has_last {
                assert forall|i: int| 0 <= i < r@.len() implies ranks_before(keys@, r@[i] as int, best as int) by {
                    if i < r@.len() - 1 {
                        assert(ranks_before(keys@, r@[i] as int, last as int));
                    }
                }
            }
            assert(!r@.contains(best)) by {
                if r@.contains(best) {
                    let i = choose|i: int| 0 <= i < r@.len() && r@[i] == best;
                    if i < r@.len() - 1 {
                        assert(ranks_before(keys@, r@[i] as int, last as int));
                    }
                }
            }
        }
        let ghost r0 = r@;
        r.push(best);
        proof {
            assert forall|q: int, i: int|
                0 <= q < n && !r@.contains(q as usize) && 0 <= i < r@.len() implies #[trigger] ranks_before(keys@, r@[i] as int, q) by {
                assert(!r0.contains(q as usize)) by {
                    if r0.contains(q as usize) {
                        let i = choose|i: int| 0 <= i < r0.len() && r0[i] == q as usize;
                        assert(r@[i] == q as usize);
                    }
                }
                assert(r@[r0.len() as int] == best);
                assert(q != best);
                if i < r0.len() {
                    assert(r@[i] == r0[i]);
                    assert(ranks_before(keys@, r0[i] as int, q));
                } else {
                    if has_last {
                        assert(ranks_before(keys@, r0[r0.len() - 1] as int, q));
                    }
                    assert(comes_after(keys@, has_last, last as int, q));
                }
            }
        }
    }
    r
}

} // verus!
