//! The numbers by which selectors are told apart.
use vstd::prelude::*;

verus! {

/// The number that the next selector gets after the one with number `id`.
pub open spec fn id_after(id: usize) -> usize {
    if id == usize::MAX {
        0
    } else {
        (id + 1) as usize
    }
}

/// The number of the selector that is made after `made` others, where the first gets `first`.
pub open spec fn nth_id(first: usize, made: nat) -> usize
    decreases made,
{
    if made == 0 {
        first
    } else {
        id_after(nth_id(first, (made - 1) as nat))
    }
}

proof fn lemma_nth_id(first: usize, made: nat)
    ensures
        nth_id(first, made) == (first + made) % (usize::MAX + 1),
    decreases made,
{
    let m = usize::MAX + 1;
    if made == 0 {
        vstd::arithmetic::div_mod::lemma_small_mod(first as nat, m as nat);
    } else {
        lemma_nth_id(first, (made - 1) as nat);
        let x = (first + made - 1) % m;
        vstd::arithmetic::div_mod::lemma_mod_bound(first + made - 1, m);
        vstd::arithmetic::div_mod::lemma_add_mod_noop(first + made - 1, 1, m);
        vstd::arithmetic::div_mod::lemma_small_mod(1, m as nat);
        if x + 1 < m {
            vstd::arithmetic::div_mod::lemma_small_mod((x + 1) as nat, m as nat);
        } else {
            vstd::arithmetic::div_mod::lemma_mod_self_0(m);
        }
    }
}

/// Two selectors have different numbers unless as many were made from the first to the second
/// as there are numbers.
pub proof fn law_ids_differ(first: usize, a: nat, b: nat)
    requires
        a < b <= a + usize::MAX,
    ensures
        nth_id(first, a) != nth_id(first, b),
{
    lemma_nth_id(first, a);
    lemma_nth_id(first, b);
    let m = usize::MAX + 1;
    if nth_id(first, a) == nth_id(first, b) {
        vstd::arithmetic::div_mod::lemma_sub_mod_noop(first + b, first + a, m);
        vstd::arithmetic::div_mod::lemma_small_mod((b - a) as nat, m as nat);
        vstd::arithmetic::div_mod::lemma_small_mod(0, m as nat);
        assert(false);
    }
}

/// Selectors are numbered one after the other; after the largest number comes 0.
pub proof fn law_ids_count_up(id: usize)
    ensures
        id < usize::MAX ==> id_after(id) == id + 1,
        id == usize::MAX ==> id_after(id) == 0,
{
}

} // verus!
