//! Allocation of the identifiers of timers and animation frame callbacks: an
//! integer greater than zero that the list does not hold yet, found by
//! counting on from the last one handed out and wrapping past the largest.
use vstd::prelude::*;

verus! {

/// The number of nonzero `u32` values.
pub open spec fn id_space() -> int {
    u32::MAX as int
}

/// The identifier tried after `h`: the next integer, wrapping from the
/// largest back to one (zero is never an identifier).
pub open spec fn next_candidate(h: u32) -> u32 {
    if h == u32::MAX {
        1
    } else {
        (h + 1) as u32
    }
}

/// The identifier tried `k` steps after the counter `h0`.
pub open spec fn candidate(h0: u32, k: nat) -> u32
    decreases k,
{
    if k == 0 {
        h0
    } else {
        next_candidate(candidate(h0, (k - 1) as nat))
    }
}

/// `r` is the identifier allocated after the counter `h0` given the
/// identifiers in use: the first candidate not in use.
pub open spec fn is_next_free_id(h0: u32, used: Seq<u32>, r: u32) -> bool {
    exists|k: nat|
        #![trigger candidate(h0, k)]
        1 <= k && r == candidate(h0, k) && !used.contains(r) && forall|j: nat|
            1 <= j < k ==> used.contains(#[trigger] candidate(h0, j))
}

pub proof fn lemma_candidate_closed_form(h0: u32, k: nat)
    requires
        k >= 1,
    ensures
        candidate(h0, k) as int == (h0 as int + k - 1) % id_space() + 1,
    decreases k,
{
    if k == 1 {
        assert(candidate(h0, 0) == h0);
    } else {
        lemma_candidate_closed_form(h0, (k - 1) as nat);
        let a = h0 as int + k - 2;
        let n = id_space();
        assert(a >= 0);
        if a % n == n - 1 {
            assert((a + 1) % n == 0) by (nonlinear_arith)
                requires
                    a % n == n - 1,
                    n > 1,
                    a >= 0,
            ;
        } else {
            assert((a + 1) % n == a % n + 1) by (nonlinear_arith)
                requires
                    0 <= a % n < n - 1,
                    n > 1,
                    a >= 0,
            ;
        }
    }
}

/// The candidates of one round are pairwise distinct.
pub proof fn lemma_candidates_distinct(h0: u32, j: nat, k: nat)
    requires
        1 <= j < k <= id_space(),
    ensures
        candidate(h0, j) != candidate(h0, k),
{
    lemma_candidate_closed_form(h0, j);
    lemma_candidate_closed_form(h0, k);
    let a = h0 as int + j - 1;
    let b = h0 as int + k - 1;
    let n = id_space();
    assert(a % n != b % n) by (nonlinear_arith)
        requires
            0 <= a < b,
            b - a < n,
            n > 1,
    {
        if a % n == b % n {
            assert(b == a + (b - a));
            assert((b - a) % n == 0) by {
                vstd::arithmetic::div_mod::lemma_sub_mod_noop(b, a, n);
                vstd::arithmetic::div_mod::lemma_mod_self_0(n);
                vstd::arithmetic::div_mod::lemma_mod_add_multiples_vanish(0, n);
            }
            vstd::arithmetic::div_mod::lemma_small_mod((b - a) as nat, n as nat);
        }
    }
}

/// Whether a list of identifiers holds a value.
pub fn ids_contain(used: &Vec<u32>, x: u32) -> (b: bool)
    ensures
        b == used@.contains(x),
{
    let mut i: usize = 0;
    while i < used.len()
        invariant
            i <= used@.len(),
            forall|j: int| 0 <= j < i ==> used@[j] != x,
        decreases used@.len() - i,
    {
        if used[i] == x {
            return true;
        }
        i = i + 1;
    }
    false
}

/// The identifier allocated after `counter`: the first integer after it,
/// counting on and wrapping past the largest to one, that `used` does not
/// hold.
pub fn next_free_id(counter: u32, used: &Vec<u32>) -> (r: u32)
    requires
        used@.len() < u32::MAX,
    ensures
        r != 0,
        !used@.contains(r),
        is_next_free_id(counter, used@, r),
{
    let mut h = counter;
    let ghost mut k: nat = 0;
    let ghost mut tried: Seq<u32> = Seq::empty();
    loop
        invariant
            used@.len() < u32::MAX,
            h == candidate(counter, k),
            k <= used@.len(),
            tried.len() == k,
            forall|j: int| 0 <= j < k ==> tried[j] == #[trigger] candidate(counter, (j + 1) as nat),
            forall|j: nat| 1 <= j <= k ==> used@.contains(#[trigger] candidate(counter, j)),
            tried.no_duplicates(),
            forall|j: int| 0 <= j < k ==> used@.contains(#[trigger] tried[j]),
        decreases used@.len() - k,
    {
        h = if h == u32::MAX {
            1
        } else {
            h + 1
        };
        assert(h == candidate(counter, (k + 1) as nat));
        proof {
            lemma_candidate_closed_form(counter, (k + 1) as nat);
        }
        if !ids_contain(used, h) {
            proof {
                assert(is_next_free_id(counter, used@, h)) by {
                    assert(h == candidate(counter, (k + 1) as nat));
                }
            }
            return h;
        }
        proof {
            let t2 = tried.push(h);
            assert forall|a: int, b: int| 0 <= a < b < t2.len() implies t2[a] != t2[b] by {
                if b < k {
                    assert(t2[a] == tried[a] && t2[b] == tried[b]);
                } else {
                    assert(t2[a] == candidate(counter, (a + 1) as nat));
                    lemma_candidates_distinct(counter, (a + 1) as nat, (k + 1) as nat);
                }
            }
            assert(t2.no_duplicates());
            t2.unique_seq_to_set();
            assert(t2.to_set().subset_of(used@.to_set())) by {
                assert forall|x: u32| t2.to_set().contains(x) implies used@.to_set().contains(x) by {
                    let j = choose|j: int| 0 <= j < t2.len() && t2[j] == x;
                    if j < k {
                        assert(used@.contains(tried[j]));
                    }
                }
            }
            used@.lemma_cardinality_of_set();
            vstd::set_lib::lemma_len_subset(t2.to_set(), used@.to_set());
            tried = t2;
            k = k + 1;
        }
    }
}

} // verus!
