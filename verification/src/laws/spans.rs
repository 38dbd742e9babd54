//! Where the entries lie in the data section.

use vstd::prelude::*;
use crate::layout::{Entry, data_bytes, entry_size, entry_start};
use crate::lemmas::lemma_entry_span;

verus! {

/// Entries start in insertion order: an earlier entry starts no later, and
/// none starts past the end of the data section.
pub proof fn lemma_entry_start_monotone(entries: Seq<Entry>, i: int, j: int)
    requires
        0 <= i <= j <= entries.len(),
    ensures
        entry_start(entries, i) <= entry_start(entries, j),
        entry_start(entries, j) <= data_bytes(entries).len(),
    decreases j - i,
{
    assert(entries.take(entries.len() as int) =~= entries);
    if j < entries.len() {
        lemma_entry_span(entries, j);
    }
    if i < j {
        lemma_entry_span(entries, j - 1);
        lemma_entry_start_monotone(entries, i, j - 1);
    }
}

/// No two entries overlap and none reaches past the end of the data section:
/// an entry ends before any later entry starts.
pub proof fn lemma_entries_do_not_overlap(entries: Seq<Entry>, i: int, j: int)
    requires
        0 <= i < j < entries.len(),
    ensures
        entry_start(entries, i) + entry_size(entries[i]) <= entry_start(entries, j),
        entry_start(entries, j) + entry_size(entries[j]) <= data_bytes(entries).len(),
{
    lemma_entry_span(entries, i);
    lemma_entry_span(entries, j);
    lemma_entry_start_monotone(entries, i + 1, j);
}

} // verus!
