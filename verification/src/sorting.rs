//! Sorting of register addresses.
use vstd::prelude::*;
use vstd::relations::{sorted_by, total_ordering};
use vstd::seq_lib::{to_multiset_build, to_multiset_insert, lemma_sorted_unique};

verus! {

/// The order of register addresses.
pub open spec fn address_leq() -> spec_fn(u16, u16) -> bool {
    |a: u16, b: u16| a <= b
}

/// `regs` in ascending order.
pub open spec fn sorted_registers(regs: Seq<u16>) -> Seq<u16> {
    regs.sort_by(address_leq())
}

proof fn lemma_address_leq_total()
    ensures
        total_ordering(address_leq()),
{
}

/// Sorts `regs` in ascending order.
pub fn sort_registers(regs: &mut Vec<u16>)
    ensures
        final(regs)@ == sorted_registers(old(regs)@),
{
    let ghost input = regs@;
    let mut sorted: Vec<u16> = Vec::new();
    let mut i: usize = 0;
    proof {
        broadcast use vstd::multiset::group_multiset_axioms;
        assert(input.take(0) =~= Seq::<u16>::empty());
        assert(sorted@ =~= Seq::<u16>::empty());
        assert(Seq::<u16>::empty().to_multiset() =~= vstd::multiset::Multiset::<u16>::empty()) by {
            broadcast use vstd::seq_lib::group_to_multiset_ensures;
        }
    }
    while i < regs.len()
        invariant
            regs@ == input,
            i <= input.len(),
            sorted_by(sorted@, address_leq()),
            sorted@.to_multiset() == input.take(i as int).to_multiset(),
        decreases input.len() - i,
    {
        let x = regs[i];
        let mut p: usize = 0;
        while p < sorted.len() && sorted[p] <= x
            invariant
                p <= sorted@.len(),
                forall|k: int| 0 <= k < p ==> sorted@[k] <= x,
            decreases sorted@.len() - p,
        {
            p += 1;
        }
        let ghost before = sorted@;
        sorted.insert(p, x);
        proof {
            before.insert_ensures(p as int, x);
            to_multiset_insert(before, p as int, x);
            assert(input.take(i + 1) =~= input.take(i as int).push(x));
            to_multiset_build(input.take(i as int), x);
            assert forall|a: int, b: int| 0 <= a < b < sorted@.len() implies #[trigger] (address_leq())(
                sorted@[a],
                sorted@[b],
            ) by {
                assert(sorted_by(before, address_leq()));
                if b < p {
                    assert((address_leq())(before[a], before[b]));
                } else if b == p {
                    assert(before[a] <= x);
                } else if a < p {
                    assert(before[a] <= x);
                    assert(x < before[p as int] || p == before.len());
                    assert((address_leq())(before[p as int], before[b - 1]) || b - 1 == p);
                } else if a == p {
                    assert((address_leq())(before[p as int], before[b - 1]) || b - 1 == p);
                } else {
                    assert((address_leq())(before[a - 1], before[b - 1]));
                }
            }
        }
        i += 1;
    }
    proof {
        assert(input.take(i as int) =~= input);
        lemma_address_leq_total();
        input.lemma_sort_by_ensures(address_leq());
        lemma_sorted_unique(sorted@, input.sort_by(address_leq()), address_leq());
    }
    *regs = sorted;
}

} // verus!
