//! Where positioned writes are gathered, and the byte sequence they make.

use crate::error::SinkError;
use vstd::prelude::*;

verus! {

/// One octet and the offset where it belongs.
#[derive(Clone, Copy, Debug, PartialEq, Eq, Structural)]
pub struct SparseWrite {
    /// Where the octet belongs.
    pub offset: u64,
    /// The octet.
    pub value: u8,
}

/// Whether the offsets of `entries` rise strictly.
pub open spec fn ascending(entries: Seq<(u64, u8)>) -> bool {
    forall|i: int, j: int|
        #![trigger entries[i], entries[j]]
        0 <= i < j < entries.len() ==> entries[i].0 < entries[j].0
}

/// Whether `entries` holds the offset `offset`.
pub open spec fn holds(entries: Seq<(u64, u8)>, offset: u64) -> bool {
    exists|i: int| 0 <= i < entries.len() && (#[trigger] entries[i]).0 == offset
}

/// The map from each offset of `entries` to its octet.
pub open spec fn map_of(entries: Seq<(u64, u8)>) -> Map<u64, u8> {
    Map::new(
        |offset: u64| holds(entries, offset),
        |offset: u64|
            entries[choose|i: int| 0 <= i < entries.len() && (#[trigger] entries[i]).0 == offset].1,
    )
}

/// Whether `entries` lists `written` by rising offsets: each of its pairs is one
/// of the map, and each offset of the map occurs in it.
pub open spec fn lists(entries: Seq<(u64, u8)>, written: Map<u64, u8>) -> bool {
    &&& ascending(entries)
    &&& forall|i: int|
        0 <= i < entries.len() ==> written.contains_pair(
            (#[trigger] entries[i]).0,
            entries[i].1,
        )
    &&& forall|offset: u64| #[trigger] written.dom().contains(offset) ==> holds(entries, offset)
}

/// Whether nothing was written.
pub open spec fn untouched(written: Map<u64, u8>) -> bool {
    forall|offset: u64| !#[trigger] written.dom().contains(offset)
}

/// Whether `offset` was written and nothing below it.
pub open spec fn is_lowest(written: Map<u64, u8>, offset: u64) -> bool {
    written.dom().contains(offset) && forall|other: u64| #[trigger]
        written.dom().contains(other) ==> offset <= other
}

/// Whether `offset` was written and nothing above it.
pub open spec fn is_highest(written: Map<u64, u8>, offset: u64) -> bool {
    written.dom().contains(offset) && forall|other: u64| #[trigger]
        written.dom().contains(other) ==> other <= offset
}

/// The lowest offset that was written.
pub open spec fn lowest(written: Map<u64, u8>) -> u64 {
    choose|offset: u64| is_lowest(written, offset)
}

/// The highest offset that was written.
pub open spec fn highest(written: Map<u64, u8>) -> u64 {
    choose|offset: u64| is_highest(written, offset)
}

/// The number of offsets from the lowest to the highest written one; zero where
/// nothing was written.
pub open spec fn span(written: Map<u64, u8>) -> int {
    if untouched(written) {
        0
    } else {
        highest(written) - lowest(written) + 1
    }
}

/// Whether every offset from `low` to `high` was written.
pub open spec fn covers(written: Map<u64, u8>, low: u64, high: u64) -> bool {
    forall|offset: u64| low <= offset <= high ==> #[trigger] written.dom().contains(offset)
}

/// The octets from `low` to `high`, with `fill` where none was written.
pub open spec fn contiguous(written: Map<u64, u8>, low: u64, high: u64, fill: u8) -> Seq<u8> {
    Seq::new(
        (high - low + 1) as nat,
        |i: int|
            if written.dom().contains((low + i) as u64) {
                written[(low + i) as u64]
            } else {
                fill
            },
    )
}

/// The contiguous reconstruction of what was written: nothing, where nothing was
/// written; else the octets from the lowest to the highest offset. An offset
/// between them that was not written takes the fill value, and is an error
/// where there is none.
pub open spec fn materialized(written: Map<u64, u8>, fill: Option<u8>) -> Result<
    Seq<u8>,
    SinkError,
> {
    if untouched(written) {
        Ok(Seq::empty())
    } else {
        let low = lowest(written);
        let high = highest(written);
        match fill {
            Some(value) => Ok(contiguous(written, low, high, value)),
            None => if covers(written, low, high) {
                Ok(contiguous(written, low, high, 0))
            } else {
                Err(SinkError::IncompleteRange)
            },
        }
    }
}

/// What a sequence of writes leaves behind: of two writes to one offset the later stays.
pub open spec fn replay(writes: Seq<SparseWrite>) -> Map<u64, u8>
    decreases writes.len(),
{
    if writes.len() == 0 {
        Map::empty()
    } else {
        replay(writes.drop_last()).insert(writes.last().offset, writes.last().value)
    }
}

/// An offset of an ascending list is mapped to the octet beside it.
pub proof fn lemma_map_of_entry(entries: Seq<(u64, u8)>, i: int)
    requires
        ascending(entries),
        0 <= i < entries.len(),
    ensures
        map_of(entries).dom().contains(entries[i].0),
        map_of(entries)[entries[i].0] == entries[i].1,
{
    let offset = entries[i].0;
    assert(holds(entries, offset));
    let k = choose|k: int| 0 <= k < entries.len() && (#[trigger] entries[k]).0 == offset;
    if k < i {
        assert(entries[k].0 < entries[i].0);
    } else if i < k {
        assert(entries[i].0 < entries[k].0);
    }
}

/// An ascending list lists its own map.
pub proof fn lemma_lists_map_of(entries: Seq<(u64, u8)>)
    requires
        ascending(entries),
    ensures
        lists(entries, map_of(entries)),
{
    assert forall|i: int| 0 <= i < entries.len() implies map_of(entries).contains_pair(
        (#[trigger] entries[i]).0,
        entries[i].1,
    ) by {
        lemma_map_of_entry(entries, i);
    }
}

/// The ends of an ascending list are the lowest and the highest offset of its map.
pub proof fn lemma_ends(entries: Seq<(u64, u8)>)
    requires
        ascending(entries),
        entries.len() > 0,
    ensures
        !untouched(map_of(entries)),
        lowest(map_of(entries)) == entries[0].0,
        highest(map_of(entries)) == entries[entries.len() - 1].0,
{
    let written = map_of(entries);
    let first = entries[0].0;
    let last = entries[entries.len() - 1].0;
    lemma_map_of_entry(entries, 0);
    lemma_map_of_entry(entries, entries.len() - 1);
    assert forall|other: u64| #[trigger] written.dom().contains(other) implies first <= other
        && other <= last by {
        let k = choose|k: int| 0 <= k < entries.len() && (#[trigger] entries[k]).0 == other;
        if 0 < k {
            assert(entries[0].0 < entries[k].0);
        }
        if k < entries.len() - 1 {
            assert(entries[k].0 < entries[entries.len() - 1].0);
        }
    }
    assert(is_lowest(written, first));
    assert(is_highest(written, last));
    let low = lowest(written);
    let high = highest(written);
    assert(is_lowest(written, low));
    assert(is_highest(written, high));
}

/// Gathers positioned writes. Of two writes to one offset the later stays.
#[derive(Debug)]
pub struct SparseByteSink {
    entries: Vec<(u64, u8)>,
}

impl View for SparseByteSink {
    type V = Map<u64, u8>;

    closed spec fn view(&self) -> Map<u64, u8> {
        map_of(self.entries@)
    }
}

impl SparseByteSink {
    #[verifier::type_invariant]
    closed spec fn valid(self) -> bool {
        ascending(self.entries@)
    }

    /// A sink that nothing was written to.
    pub fn new() -> (sink: SparseByteSink)
        ensures
            sink@ == Map::<u64, u8>::empty(),
    {
        let sink = SparseByteSink { entries: Vec::new() };
        assert(sink@ =~= Map::<u64, u8>::empty());
        sink
    }

    /// The number of offsets that were written.
    pub fn len(&self) -> (n: usize)
        ensures
            self@.dom().finite(),
            n == self@.dom().len(),
    {
        proof {
            use_type_invariant(self);
            lemma_domain_size(self.entries@);
        }
        self.entries.len()
    }

    /// Whether nothing was written.
    pub fn is_empty(&self) -> (b: bool)
        ensures
            b == untouched(self@),
    {
        proof {
            use_type_invariant(self);
            if self.entries@.len() > 0 {
                lemma_ends(self.entries@);
            }
        }
        self.entries.len() == 0
    }

    /// The lowest and the highest offset that were written, if any was.
    pub fn bounds(&self) -> (r: Option<(u64, u64)>)
        ensures
            match r {
                Some((low, high)) => !untouched(self@) && low == lowest(self@) && high == highest(
                    self@,
                ),
                None => untouched(self@),
            },
    {
        proof {
            use_type_invariant(self);
            if self.entries@.len() > 0 {
                lemma_ends(self.entries@);
            }
        }
        if self.entries.len() == 0 {
            None
        } else {
            Some((self.entries[0].0, self.entries[self.entries.len() - 1].0))
        }
    }

    /// The index of the first entry whose offset is not below `offset`.
    fn position(&self, offset: u64) -> (at: usize)
        ensures
            at <= self.entries@.len(),
            forall|i: int| 0 <= i < at ==> (#[trigger] self.entries@[i]).0 < offset,
            forall|i: int|
                at <= i < self.entries@.len() ==> (#[trigger] self.entries@[i]).0 >= offset,
    {
        proof {
            use_type_invariant(self);
        }
        let n = self.entries.len();
        if n == 0 || self.entries[n - 1].0 < offset {
            assert forall|i: int| 0 <= i < n implies (#[trigger] self.entries@[i]).0 < offset by {
                if i < n - 1 {
                    assert(self.entries@[i].0 < self.entries@[n - 1].0);
                }
            }
            return n;
        }
        let mut low: usize = 0;
        let mut high: usize = n - 1;
        while low < high
            invariant
                low <= high < n,
                n == self.entries@.len(),
                ascending(self.entries@),
                self.entries@[high as int].0 >= offset,
                forall|i: int| 0 <= i < low ==> (#[trigger] self.entries@[i]).0 < offset,
            decreases high - low,
        {
            let mid = low + (high - low) / 2;
            if self.entries[mid].0 < offset {
                assert forall|i: int| 0 <= i < mid + 1 implies (#[trigger] self.entries@[i]).0
                    < offset by {
                    if i < mid {
                        assert(self.entries@[i].0 < self.entries@[mid as int].0);
                    }
                }
                low = mid + 1;
            } else {
                high = mid;
            }
        }
        assert forall|i: int| low <= i < n implies (#[trigger] self.entries@[i]).0 >= offset by {
            if low < i {
                assert(self.entries@[low as int].0 < self.entries@[i].0);
            }
        }
        low
    }

    /// Takes one write. A write to an offset that was written before replaces the
    /// octet there.
    pub fn record(&mut self, write: SparseWrite)
        ensures
            final(self)@ == old(self)@.insert(write.offset, write.value),
    {
        proof {
            use_type_invariant(&*self);
        }
        let ghost before = self.entries@;
        let at = self.position(write.offset);
        let mut entries: Vec<(u64, u8)> = Vec::new();
        core::mem::swap(&mut self.entries, &mut entries);
        if at < entries.len() && entries[at].0 == write.offset {
            entries.set(at, (write.offset, write.value));
            proof {
                let after = entries@;
                assert forall|i: int, j: int|
                    #![trigger after[i], after[j]]
                    0 <= i < j < after.len() implies after[i].0 < after[j].0 by {
                    assert(before[i].0 < before[j].0);
                }
                lemma_record(before, after, at as int, write);
            }
        } else {
            entries.insert(at, (write.offset, write.value));
            proof {
                let after = entries@;
                assert forall|i: int, j: int|
                    #![trigger after[i], after[j]]
                    0 <= i < j < after.len() implies after[i].0 < after[j].0 by {
                    let bi = if i < at { i } else { i - 1 };
                    let bj = if j < at { j } else { j - 1 };
                    if i != at && j != at {
                        assert(before[bi].0 < before[bj].0);
                    } else if i == at {
                        assert(before[bj].0 >= write.offset);
                    } else {
                        assert(before[bi].0 < write.offset);
                    }
                }
                lemma_record(before, after, at as int, write);
            }
        }
        self.entries = entries;
    }

    /// The contiguous reconstruction from the lowest to the highest written
    /// offset. With a fill value the result is as long as that span, which must be
    /// a length that a vector can have.
    pub fn materialize(&self, fill: Option<u8>) -> (r: Result<Vec<u8>, SinkError>)
        requires
            fill is Some ==> span(self@) <= usize::MAX,
        ensures
            match r {
                Ok(bytes) => materialized(self@, fill) == Ok::<Seq<u8>, SinkError>(bytes@),
                Err(e) => materialized(self@, fill) == Err::<Seq<u8>, SinkError>(e),
            },
    {
        proof {
            use_type_invariant(self);
        }
        let n = self.entries.len();
        let mut out: Vec<u8> = Vec::new();
        if n == 0 {
            assert(untouched(self@));
            return Ok(out);
        }
        proof {
            lemma_ends(self.entries@);
        }
        let low = self.entries[0].0;
        let ghost high = self.entries@[n - 1].0;
        let ghost written = self@;
        let ghost padding: u8 = match fill {
            Some(value) => value,
            None => 0,
        };
        let mut i: usize = 0;
        while i < n
            invariant
                0 <= i <= n == self.entries@.len(),
                ascending(self.entries@),
                written == map_of(self.entries@),
                written == self@,
                low == self.entries@[0].0,
                high == self.entries@[n - 1].0,
                !untouched(written),
                lowest(written) == low,
                highest(written) == high,
                padding == match fill {
                    Some(value) => value,
                    None => 0u8,
                },
                i == 0 ==> out@.len() == 0,
                i > 0 ==> out@.len() == self.entries@[i - 1].0 - low + 1,
                forall|j: int|
                    0 <= j < out@.len() ==> #[trigger] out@[j] == (if written.dom().contains(
                        (low + j) as u64,
                    ) {
                        written[(low + j) as u64]
                    } else {
                        padding
                    }),
                fill is None ==> forall|offset: u64|
                    low <= offset < low + out@.len() ==> #[trigger] written.dom().contains(offset),
            decreases n - i,
        {
            let offset = self.entries[i].0;
            let value = self.entries[i].1;
            if i > 0 {
                let prev = self.entries[i - 1].0;
                assert(self.entries@[i - 1].0 < self.entries@[i as int].0);
                assert(low <= prev) by {
                    if i - 1 > 0 {
                        assert(self.entries@[0].0 < self.entries@[i - 1].0);
                    }
                }
                let mut next: u64 = prev + 1;
                if next < offset {
                    let value = match fill {
                        Some(value) => value,
                        None => {
                            proof {
                                lemma_gap(self.entries@, i as int, next);
                                assert(low <= next <= high) by {
                                    if i < n - 1 {
                                        assert(self.entries@[i as int].0 < self.entries@[n - 1].0);
                                    }
                                }
                                assert(!covers(written, low, high));
                            }
                            return Err(SinkError::IncompleteRange);
                        },
                    };
                    while next < offset
                        invariant
                            0 < i < n == self.entries@.len(),
                            ascending(self.entries@),
                            written == map_of(self.entries@),
                            prev == self.entries@[i - 1].0,
                            offset == self.entries@[i as int].0,
                            low <= prev < next <= offset,
                            padding == value,
                            out@.len() == next - low,
                            forall|j: int|
                                0 <= j < out@.len() ==> #[trigger] out@[j] == (
                                if written.dom().contains((low + j) as u64) {
                                    written[(low + j) as u64]
                                } else {
                                    padding
                                }),
                        decreases offset - next,
                    {
                        proof {
                            lemma_gap(self.entries@, i as int, next);
                        }
                        out.push(value);
                        next = next + 1;
                    }
                }
            }
            proof {
                lemma_map_of_entry(self.entries@, i as int);
            }
            out.push(value);
            i += 1;
        }
        proof {
            assert(out@.len() == high - low + 1);
            assert(out@ =~= contiguous(written, low, high, padding));
            if fill is None {
                assert(covers(written, low, high));
            }
        }
        Ok(out)
    }

    /// What was written, by rising offsets.
    pub fn materialize_sparse(&self) -> (entries: Vec<(u64, u8)>)
        ensures
            lists(entries@, self@),
    {
        proof {
            use_type_invariant(self);
            lemma_lists_map_of(self.entries@);
        }
        let mut entries: Vec<(u64, u8)> = Vec::new();
        let mut i: usize = 0;
        while i < self.entries.len()
            invariant
                i <= self.entries@.len(),
                entries@ == self.entries@.take(i as int),
            decreases self.entries@.len() - i,
        {
            entries.push(self.entries[i]);
            i += 1;
            assert(entries@ =~= self.entries@.take(i as int));
        }
        assert(entries@ =~= self.entries@);
        entries
    }
}

/// The entries hold as many offsets as their map.
pub proof fn lemma_domain_size(entries: Seq<(u64, u8)>)
    requires
        ascending(entries),
    ensures
        map_of(entries).dom().finite(),
        map_of(entries).dom().len() == entries.len(),
    decreases entries.len(),
{
    if entries.len() == 0 {
        assert(map_of(entries).dom() =~= Set::<u64>::empty());
    } else {
        let shorter = entries.drop_last();
        let last = entries.last();
        assert(ascending(shorter)) by {
            assert forall|i: int, j: int|
                #![trigger shorter[i], shorter[j]]
                0 <= i < j < shorter.len() implies shorter[i].0 < shorter[j].0 by {
                assert(entries[i].0 < entries[j].0);
            }
        }
        lemma_domain_size(shorter);
        assert(!holds(shorter, last.0)) by {
            if holds(shorter, last.0) {
                let k = choose|k: int| 0 <= k < shorter.len() && (#[trigger] shorter[k]).0 == last.0;
                assert(entries[k].0 < entries[entries.len() - 1].0);
            }
        }
        assert(map_of(entries).dom() =~= map_of(shorter).dom().insert(last.0)) by {
            assert forall|offset: u64| holds(entries, offset) <==> (holds(shorter, offset)
                || offset == last.0) by {
                if holds(entries, offset) {
                    let k = choose|k: int|
                        0 <= k < entries.len() && (#[trigger] entries[k]).0 == offset;
                    if k < shorter.len() {
                        assert(shorter[k].0 == offset);
                    }
                }
                if holds(shorter, offset) {
                    let k = choose|k: int|
                        0 <= k < shorter.len() && (#[trigger] shorter[k]).0 == offset;
                    assert(entries[k].0 == offset);
                }
                if offset == last.0 {
                    assert(entries[entries.len() - 1].0 == offset);
                }
            }
        }
    }
}

/// Nothing was written between two neighbours of an ascending list.
pub proof fn lemma_gap(entries: Seq<(u64, u8)>, i: int, offset: u64)
    requires
        ascending(entries),
        0 < i < entries.len(),
        entries[i - 1].0 < offset < entries[i].0,
    ensures
        !map_of(entries).dom().contains(offset),
{
    if holds(entries, offset) {
        let k = choose|k: int| 0 <= k < entries.len() && (#[trigger] entries[k]).0 == offset;
        if k < i - 1 {
            assert(entries[k].0 < entries[i - 1].0);
        } else if k > i {
            assert(entries[i].0 < entries[k].0);
        }
    }
}

/// Putting a write at its place in an ascending list, in place of the entry of
/// its offset or between its neighbours, inserts it into the map.
proof fn lemma_record(before: Seq<(u64, u8)>, after: Seq<(u64, u8)>, at: int, write: SparseWrite)
    requires
        ascending(before),
        ascending(after),
        0 <= at <= before.len(),
        (at < before.len() && before[at].0 == write.offset && after == before.update(
            at,
            (write.offset, write.value),
        )) || (after == before.insert(at, (write.offset, write.value))),
    ensures
        map_of(after) == map_of(before).insert(write.offset, write.value),
{
    let replaced = at < before.len() && before[at].0 == write.offset && after == before.update(
        at,
        (write.offset, write.value),
    );
    let target = map_of(before).insert(write.offset, write.value);
    assert(after[at] == (write.offset, write.value));
    assert forall|offset: u64| map_of(after).dom().contains(offset) <==> target.dom().contains(
        offset,
    ) by {
        if holds(after, offset) && offset != write.offset {
            let k = choose|k: int| 0 <= k < after.len() && (#[trigger] after[k]).0 == offset;
            if replaced {
                assert(before[k].0 == offset);
            } else {
                let b = if k < at { k } else { k - 1 };
                assert(before[b].0 == offset);
            }
        }
        if holds(before, offset) && offset != write.offset {
            let k = choose|k: int| 0 <= k < before.len() && (#[trigger] before[k]).0 == offset;
            if replaced {
                assert(after[k].0 == offset);
            } else {
                let a = if k < at { k } else { k + 1 };
                assert(after[a].0 == offset);
            }
        }
        if offset == write.offset {
            assert(after[at].0 == offset);
        }
    }
    assert forall|offset: u64| #[trigger] map_of(after).dom().contains(offset) implies map_of(
        after,
    )[offset] == target[offset] by {
        let k = choose|k: int| 0 <= k < after.len() && (#[trigger] after[k]).0 == offset;
        lemma_map_of_entry(after, k);
        if offset != write.offset {
            let b = if replaced || k < at { k } else { k - 1 };
            assert(before[b] == after[k]);
            lemma_map_of_entry(before, b);
        } else {
            lemma_map_of_entry(after, at);
        }
    }
    assert(map_of(after) =~= target);
}

} // verus!
