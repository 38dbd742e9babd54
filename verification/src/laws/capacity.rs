//! How many entries a block takes.

use vstd::prelude::*;
use crate::layout::{
    Entry, SIZE_AVAILABLE, added_all, data_bytes, entry_size, fits, used_space, within_capacity,
};
use crate::lemmas::lemma_data_bytes_push;

verus! {

/// Boundary: an entry that fills the capacity budget to the last byte fits,
/// and an entry one byte larger does not.
pub proof fn lemma_boundary_entry(entries: Seq<Entry>, exact: Entry, larger: Entry)
    requires
        used_space(entries) + 4 + entry_size(exact) == SIZE_AVAILABLE,
        entry_size(larger) == entry_size(exact) + 1,
    ensures
        fits(entries, exact),
        !fits(entries, larger),
{
}

/// The capacity budget holds at every point: whatever entries are offered to
/// an empty block, those it takes fit in the budget.
pub proof fn lemma_added_all_within_capacity(batch: Seq<Entry>)
    ensures
        within_capacity(added_all(Seq::empty(), batch)),
    decreases batch.len(),
{
    if batch.len() > 0 {
        let held = added_all(Seq::empty(), batch.drop_last());
        lemma_added_all_within_capacity(batch.drop_last());
        lemma_data_bytes_push(held, batch.last());
    } else {
        assert(data_bytes(Seq::<Entry>::empty()) =~= Seq::<u8>::empty());
    }
}

/// Entries of one size take the same room each: their encoding and their
/// offset slot.
pub proof fn lemma_used_space_uniform(entries: Seq<Entry>, size: nat)
    requires
        forall|i: int| 0 <= i < entries.len() ==> entry_size(#[trigger] entries[i]) == size,
    ensures
        used_space(entries) == entries.len() * (size + 4),
    decreases entries.len(),
{
    if entries.len() > 0 {
        let front = entries.drop_last();
        lemma_used_space_uniform(front, size);
        lemma_data_bytes_push(front, entries.last());
        assert(front.push(entries.last()) =~= entries);
        assert(entries.len() * (size + 4) == front.len() * (size + 4) + (size + 4))
            by (nonlinear_arith)
            requires
                entries.len() == front.len() + 1,
        ;
    } else {
        assert(entries.len() * (size + 4) == 0) by (nonlinear_arith)
            requires
                entries.len() == 0,
        ;
    }
}

/// Capacity exactness: of entries of one size that are added to an empty
/// block in turn, the first `SIZE_AVAILABLE / (size + 4)` are accepted and
/// every later one is rejected.
pub proof fn lemma_capacity_exact(batch: Seq<Entry>, size: nat)
    requires
        forall|i: int| 0 <= i < batch.len() ==> entry_size(#[trigger] batch[i]) == size,
    ensures
        batch.len() <= SIZE_AVAILABLE as nat / (size + 4) ==> added_all(Seq::empty(), batch)
            == batch,
        batch.len() > SIZE_AVAILABLE as nat / (size + 4) ==> added_all(Seq::empty(), batch)
            == batch.take((SIZE_AVAILABLE as nat / (size + 4)) as int),
    decreases batch.len(),
{
    let slot = size + 4;
    let most = SIZE_AVAILABLE as nat / slot;
    if batch.len() > 0 {
        let front = batch.drop_last();
        let held = added_all(Seq::empty(), front);
        lemma_capacity_exact(front, size);
        assert(most * slot <= SIZE_AVAILABLE < (most + 1) * slot) by (nonlinear_arith)
            requires
                most == SIZE_AVAILABLE as nat / slot,
                slot > 0,
        ;
        if front.len() < most {
            assert(held == front);
            lemma_used_space_uniform(front, size);
            assert((front.len() + 1) * slot <= most * slot) by (nonlinear_arith)
                requires
                    front.len() + 1 <= most,
            ;
            assert((front.len() + 1) * slot == front.len() * slot + slot) by (nonlinear_arith);
            assert(fits(held, batch.last()));
            assert(front.push(batch.last()) =~= batch);
        } else {
            assert(held =~= batch.take(most as int)) by {
                if front.len() > most {
                    assert(front.take(most as int) =~= batch.take(most as int));
                } else {
                    assert(front =~= batch.take(most as int));
                }
            }
            assert forall|i: int| 0 <= i < held.len() implies entry_size(#[trigger] held[i])
                == size by {
                assert(held[i] == batch[i]);
            }
            lemma_used_space_uniform(held, size);
            assert(held.len() * slot + slot == (most + 1) * slot) by (nonlinear_arith)
                requires
                    held.len() == most,
            ;
            assert(!fits(held, batch.last()));
        }
    }
}

} // verus!
