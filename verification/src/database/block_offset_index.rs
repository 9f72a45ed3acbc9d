//! Where each block's text stands in the document's text.
use vstd::prelude::*;

use crate::entities::{copy_list, EntityId};

verus! {

/// The stretch of the document's text, in characters, that is one block's.
#[derive(Clone, Copy, Debug, PartialEq, Eq, Structural)]
pub struct BlockOffset {
    pub block_id: EntityId,
    pub start: usize,
    pub len: usize,
}

/// The stretches of all blocks, in the order of the text.
#[derive(Debug, PartialEq, Eq)]
pub struct BlockOffsetIndex {
    pub entries: Vec<BlockOffset>,
}

impl View for BlockOffsetIndex {
    type V = Seq<BlockOffset>;

    open spec fn view(&self) -> Seq<BlockOffset> {
        self.entries@
    }
}

/// The position of a block's stretch, from the `i`-th on.
pub open spec fn stretch_from(entries: Seq<BlockOffset>, block_id: EntityId, i: int) -> Option<int>
    decreases entries.len() - i,
{
    if i < 0 || i >= entries.len() {
        None
    } else if entries[i].block_id == block_id {
        Some(i)
    } else {
        stretch_from(entries, block_id, i + 1)
    }
}

/// The position of a block's stretch.
pub open spec fn stretch_of(entries: Seq<BlockOffset>, block_id: EntityId) -> Option<int> {
    stretch_from(entries, block_id, 0)
}

/// Whether every stretch lies within a text of a length, and none begins before
/// the one before it ends.
pub open spec fn stretches_fit(entries: Seq<BlockOffset>, text_len: int) -> bool {
    &&& forall|i: int|
        0 <= i < entries.len() ==> (#[trigger] entries[i]).start + entries[i].len <= text_len
    &&& forall|i: int, j: int|
        0 <= i < j < entries.len() ==> (#[trigger] entries[i]).start + entries[i].len <= (
        #[trigger] entries[j]).start
}

/// The stretches after `n` characters were inserted into the `k`-th.
pub open spec fn stretched(entries: Seq<BlockOffset>, k: int, n: int) -> Seq<BlockOffset> {
    Seq::new(
        entries.len(),
        |i: int|
            if i == k {
                BlockOffset { len: (entries[i].len + n) as usize, ..entries[i] }
            } else if i > k {
                BlockOffset { start: (entries[i].start + n) as usize, ..entries[i] }
            } else {
                entries[i]
            },
    )
}

impl BlockOffsetIndex {
    /// No blocks.
    pub fn new() -> (index: Self)
        ensures
            index@ == Seq::<BlockOffset>::empty(),
    {
        BlockOffsetIndex { entries: Vec::new() }
    }

    /// The same stretches.
    pub fn copy(&self) -> (copy: Self)
        ensures
            copy@ == self@,
    {
        BlockOffsetIndex { entries: copy_list(&self.entries) }
    }

    /// The position of a block's stretch.
    pub fn find(&self, block_id: EntityId) -> (k: Option<usize>)
        ensures
            match k {
                Some(k) => stretch_of(self@, block_id) == Some(k as int) && k < self@.len(),
                None => stretch_of(self@, block_id) is None,
            },
    {
        for i in 0..self.entries.len()
            invariant
                stretch_of(self@, block_id) == stretch_from(self@, block_id, i as int),
        {
            if self.entries[i].block_id == block_id {
                return Some(i);
            }
        }
        None
    }

    /// Makes room for `n` characters in the `k`-th stretch.
    pub fn stretch(&mut self, k: usize, n: usize)
        requires
            k < old(self)@.len(),
            stretches_fit(old(self)@, usize::MAX - n),
        ensures
            final(self)@ == stretched(old(self)@, k as int, n as int),
    {
        let ghost all = self@;
        let len: usize = self.entries.len();
        for i in k..len
            invariant
                k < len,
                len == self@.len(),
                len == all.len(),
                stretches_fit(all, usize::MAX - n),
                forall|j: int|
                    0 <= j < i ==> #[trigger] self@[j] == stretched(all, k as int, n as int)[j],
                forall|j: int| i <= j < len ==> #[trigger] self@[j] == all[j],
        {
            assert(self@[i as int] == all[i as int]);
            let mut entry = self.entries[i];
            if i == k {
                entry.len = entry.len + n;
            } else {
                entry.start = entry.start + n;
            }
            self.entries.set(i, entry);
        }
        assert(self@ =~= stretched(all, k as int, n as int));
    }
}

/// Making room in one stretch keeps all stretches within the longer text, none
/// over another.
pub proof fn stretching_keeps_the_fit(
    entries: Seq<BlockOffset>,
    k: int,
    n: int,
    text_len: int,
)
    requires
        stretches_fit(entries, text_len),
        0 <= k < entries.len(),
        0 <= n,
        text_len + n <= usize::MAX,
    ensures
        stretches_fit(stretched(entries, k, n), text_len + n),
{
    let new = stretched(entries, k, n);
    assert forall|i: int| 0 <= i < new.len() implies (#[trigger] new[i]).start + new[i].len
        <= text_len + n by {
        assert(entries[i].start + entries[i].len <= text_len);
    }
    assert forall|i: int, j: int| 0 <= i < j < new.len() implies (#[trigger] new[i]).start
        + new[i].len <= (#[trigger] new[j]).start by {
        assert(entries[i].start + entries[i].len <= entries[j].start);
        assert(entries[i].start + entries[i].len <= text_len);
        assert(entries[j].start + entries[j].len <= text_len);
    }
}

} // verus!
