//! The sector allocator: one bit for each sector of a region file, a
//! first-fit search for free runs, release and growth.

use crate::metadata::AnvilChunkMetadata;
use bitvec::vec::BitVec;
use vstd::prelude::*;

verus! {

/// One bit for each sector of a region file. A set bit marks a sector in use.
///
/// The bits are kept in a `bitvec::vec::BitVec`, which the verifier does not
/// look into. `bits_of` names what the bitmap holds, and the five private
/// methods that touch the bit-vector state what the source of `bitvec` shows
/// of the one call that each of them makes. Everything else is proved from
/// those five contracts.
#[verifier::external_body]
pub struct SectorBitmap {
    bits: BitVec,
}

/// The bits that the bit-vector of a bitmap holds, sector 0 first.
pub uninterp spec fn bits_of(bitmap: SectorBitmap) -> Seq<bool>;

impl View for SectorBitmap {
    type V = Seq<bool>;

    open spec fn view(&self) -> Seq<bool> {
        bits_of(*self)
    }
}

/// Whether the `count` sectors from `start` on lie inside `bits` and are all
/// free.
pub open spec fn is_free_run(bits: Seq<bool>, start: int, count: int) -> bool {
    &&& 0 <= start
    &&& start + count <= bits.len()
    &&& forall|sector: int| start <= sector < start + count ==> !bits[sector]
}

/// Whether some run of `count` free sectors lies inside `bits`.
pub open spec fn has_fit(bits: Seq<bool>, count: int) -> bool {
    exists|start: int| is_free_run(bits, start, count)
}

/// Whether `start` begins the first run of `count` free sectors in `bits`.
pub open spec fn is_first_fit(bits: Seq<bool>, start: int, count: int) -> bool {
    &&& is_free_run(bits, start, count)
    &&& forall|earlier: int| 0 <= earlier < start ==> !is_free_run(bits, earlier, count)
}

/// Start of the first run of `count` free sectors in `bits`, if there is one.
pub open spec fn first_fit(bits: Seq<bool>, count: int) -> Option<int> {
    if has_fit(bits, count) {
        Some(choose|start: int| is_first_fit(bits, start, count))
    } else {
        None
    }
}

/// Length of the longest run of free sectors that ends just before `end`.
pub open spec fn free_run_before(bits: Seq<bool>, end: int) -> nat
    decreases end,
{
    if end <= 0 || end > bits.len() || bits[end - 1] {
        0
    } else {
        1 + free_run_before(bits, end - 1)
    }
}

/// Length of the run of free sectors at the end of `bits`.
pub open spec fn trailing_free(bits: Seq<bool>) -> nat {
    free_run_before(bits, bits.len() as int)
}

/// `bits` after the `count` sectors from `start` on are marked: set where
/// `used` holds, cleared where not. Sectors outside `bits` are skipped, and
/// sectors 0 and 1 are never cleared.
pub open spec fn marked(bits: Seq<bool>, start: int, count: int, used: bool) -> Seq<bool> {
    Seq::new(
        bits.len(),
        |sector: int|
            if start <= sector < start + count && (used || sector >= 2) {
                used
            } else {
                bits[sector]
            },
    )
}

/// `bits` with `additional` sectors in use appended.
pub open spec fn grown(bits: Seq<bool>, additional: int) -> Seq<bool> {
    bits + Seq::new(additional as nat, |sector: int| true)
}

/// Whether one of the first `slots` entries of `header` lies on `sector`, or
/// the sector is one of the two that hold the header itself.
pub open spec fn in_use_by(header: Seq<AnvilChunkMetadata>, slots: int, sector: int) -> bool {
    sector < 2 || exists|slot: int| 0 <= slot < slots && #[trigger] header[slot].covers(sector)
}

/// The bitmap of a file of `total_sectors` sectors with the entries `header`.
pub open spec fn used_sectors_of(total_sectors: int, header: Seq<AnvilChunkMetadata>) -> Seq<bool> {
    Seq::new(total_sectors as nat, |sector: int| in_use_by(header, header.len() as int, sector))
}

/// The run that ends before `end` is free, no longer than `end`, and a used
/// sector or the start of the bitmap stands in front of it.
pub proof fn lemma_free_run_before(bits: Seq<bool>, end: int)
    requires
        0 <= end <= bits.len(),
    ensures
        free_run_before(bits, end) <= end,
        is_free_run(bits, end - free_run_before(bits, end), free_run_before(bits, end) as int),
        free_run_before(bits, end) < end ==> bits[end - free_run_before(bits, end) - 1],
    decreases end,
{
    if end > 0 && !bits[end - 1] {
        lemma_free_run_before(bits, end - 1);
    }
}

/// A free run that ends at `end` is no longer than the longest one.
pub proof fn lemma_free_run_is_longest(bits: Seq<bool>, start: int, end: int)
    requires
        0 <= start <= end <= bits.len(),
        is_free_run(bits, start, end - start),
    ensures
        end - start <= free_run_before(bits, end),
    decreases end - start,
{
    if start < end {
        assert(!bits[end - 1]);
        lemma_free_run_is_longest(bits, start, end - 1);
    }
}

/// There is one first fit at most, and `first_fit` names it.
pub proof fn lemma_first_fit_unique(bits: Seq<bool>, start: int, count: int)
    requires
        is_first_fit(bits, start, count),
    ensures
        first_fit(bits, count) == Some(start),
{
    assert(has_fit(bits, count));
    let chosen = choose|chosen: int| is_first_fit(bits, chosen, count);
    assert(is_first_fit(bits, chosen, count));
    if chosen < start {
        assert(!is_free_run(bits, chosen, count));
    }
    if start < chosen {
        assert(!is_free_run(bits, start, count));
    }
}

/// Where a run fits, a first one does, and it starts no later.
pub proof fn lemma_first_fit_below(bits: Seq<bool>, count: int, fit: int)
    requires
        is_free_run(bits, fit, count),
    ensures
        exists|start: int| is_first_fit(bits, start, count) && start <= fit,
    decreases fit,
{
    if exists|earlier: int| 0 <= earlier < fit && is_free_run(bits, earlier, count) {
        let earlier = choose|earlier: int| 0 <= earlier < fit && is_free_run(bits, earlier, count);
        lemma_first_fit_below(bits, count, earlier);
    } else {
        assert(is_first_fit(bits, fit, count));
    }
}

/// Where a run fits, `first_fit` names the first one.
pub proof fn lemma_first_fit_some(bits: Seq<bool>, count: int)
    requires
        has_fit(bits, count),
    ensures
        first_fit(bits, count) is Some,
        is_first_fit(bits, first_fit(bits, count)->Some_0, count),
{
    let fit = choose|fit: int| is_free_run(bits, fit, count);
    lemma_first_fit_below(bits, count, fit);
}

/// Where no run of `count` sectors fits, the free run at the end is shorter.
pub proof fn lemma_no_fit_short_tail(bits: Seq<bool>, count: int)
    requires
        0 <= count,
        !has_fit(bits, count),
    ensures
        trailing_free(bits) < count,
{
    lemma_free_run_before(bits, bits.len() as int);
    if trailing_free(bits) >= count {
        assert(is_free_run(bits, bits.len() - count, count));
    }
}

/// Where no run fits, `first_fit` names none.
pub proof fn lemma_first_fit_none(bits: Seq<bool>, count: int)
    requires
        !has_fit(bits, count),
    ensures
        first_fit(bits, count) is None,
{
}

impl SectorBitmap {
    /// Calls `BitVec::repeat`: a bit-vector of `len` bits, each equal to
    /// `bit`. It panics above `usize::MAX >> 3` bits, which the precondition
    /// leaves out.
    #[verifier::external_body]
    fn repeat(bit: bool, len: usize) -> (bitmap: Self)
        requires
            len <= usize::MAX / 8,
        ensures
            bits_of(bitmap) == Seq::new(len as nat, |sector: int| bit),
    {
        SectorBitmap { bits: BitVec::repeat(bit, len) }
    }

    /// Calls `BitVec::len`: the number of bits.
    #[verifier::external_body]
    fn bit_len(&self) -> (len: usize)
        ensures
            len == bits_of(*self).len(),
    {
        self.bits.len()
    }

    /// Indexes the bit-vector with `index`, through `Index<usize>` of
    /// `BitSlice`. It panics from the length on, which the precondition
    /// leaves out.
    #[verifier::external_body]
    fn bit(&self, index: usize) -> (bit: bool)
        requires
            index < bits_of(*self).len(),
        ensures
            bit == bits_of(*self)[index as int],
    {
        self.bits[index]
    }

    /// Calls `BitSlice::set`, which writes one bit and leaves the others. It
    /// panics from the length on, which the precondition leaves out.
    #[verifier::external_body]
    fn set_bit(&mut self, index: usize, value: bool)
        requires
            index < bits_of(*old(self)).len(),
        ensures
            bits_of(*final(self)) == bits_of(*old(self)).update(index as int, value),
    {
        self.bits.set(index, value)
    }

    /// Calls `BitVec::push`, which appends one bit. It panics where the new
    /// length would pass `usize::MAX >> 3`, which the precondition leaves
    /// out.
    #[verifier::external_body]
    fn push_bit(&mut self, value: bool)
        requires
            bits_of(*old(self)).len() < usize::MAX / 8,
        ensures
            bits_of(*final(self)) == bits_of(*old(self)).push(value),
    {
        self.bits.push(value)
    }

    /// Number of sectors that the bitmap covers.
    pub fn len(&self) -> (len: usize)
        ensures
            len == self@.len(),
    {
        self.bit_len()
    }

    /// Whether sector `index` is in use, or `None` outside the bitmap.
    pub fn get(&self, index: usize) -> (bit: Option<bool>)
        ensures
            bit == if index < self@.len() {
                Some(self@[index as int])
            } else {
                None
            },
    {
        if index < self.bit_len() {
            Some(self.bit(index))
        } else {
            None
        }
    }

    /// Sets the bits of the `count` sectors from `start` on where `used`
    /// holds, and clears them where not. Sectors outside the bitmap are
    /// skipped. The two sectors of the header are never cleared.
    pub fn mark_range(&mut self, start: usize, count: usize, used: bool)
        ensures
            final(self)@ == marked(old(self)@, start as int, count as int, used),
    {
        let total: usize = self.bit_len();
        if start >= total {
            assert(self@ =~= marked(old(self)@, start as int, count as int, used));
            return ;
        }
        let end: usize = if count >= total - start {
            total
        } else {
            start + count
        };
        let mut index: usize = start;
        while index < end
            invariant
                total == old(self)@.len(),
                start <= index <= end <= total,
                end == if start + count >= total {
                    total as int
                } else {
                    start + count
                },
                self@ == marked(old(self)@, start as int, index - start, used),
            decreases end - index,
        {
            if used || index >= 2 {
                self.set_bit(index, used);
            }
            index += 1;
            assert(self@ =~= marked(old(self)@, start as int, index - start, used));
        }
        assert(self@ =~= marked(old(self)@, start as int, count as int, used));
    }

    /// Start of the first run of `sectors_required` free sectors, scanning
    /// upwards from sector 0, or `None` where no run is long enough.
    pub fn first_fit(&self, sectors_required: usize) -> (start: Option<usize>)
        ensures
            match start {
                Some(start) => is_first_fit(self@, start as int, sectors_required as int),
                None => !has_fit(self@, sectors_required as int),
            },
            match start {
                Some(start) => first_fit(self@, sectors_required as int) == Some(start as int),
                None => first_fit(self@, sectors_required as int) is None,
            },
    {
        if sectors_required == 0 {
            proof {
                assert(is_first_fit(self@, 0, 0));
                lemma_first_fit_unique(self@, 0, 0);
            }
            return Some(0);
        }
        let total: usize = self.bit_len();
        let mut sectors_free: usize = 0;
        let mut sector_index: usize = 0;
        while sector_index < total
            invariant
                total == self@.len(),
                sector_index <= total,
                sectors_required >= 1,
                sectors_free == free_run_before(self@, sector_index as int),
                sectors_free < sectors_required,
                forall|earlier: int|
                    0 <= earlier && earlier + sectors_required <= sector_index ==> !is_free_run(
                        self@,
                        earlier,
                        sectors_required as int,
                    ),
            decreases total - sector_index,
        {
            proof {
                lemma_free_run_before(self@, sector_index as int);
                lemma_free_run_before(self@, sector_index + 1);
            }
            if self.bit(sector_index) {
                sectors_free = 0;
            } else {
                sectors_free += 1;
                if sectors_free == sectors_required {
                    let start: usize = sector_index + 1 - sectors_free;
                    proof {
                        assert(is_first_fit(self@, start as int, sectors_required as int));
                        lemma_first_fit_unique(self@, start as int, sectors_required as int);
                    }
                    return Some(start);
                }
            }
            proof {
                let end = sector_index + 1;
                assert forall|earlier: int|
                    0 <= earlier && earlier + sectors_required <= end implies !is_free_run(
                    self@,
                    earlier,
                    sectors_required as int,
                ) by {
                    if earlier + sectors_required == end && is_free_run(
                        self@,
                        earlier,
                        sectors_required as int,
                    ) {
                        lemma_free_run_is_longest(self@, earlier, end);
                    }
                }
            }
            sector_index += 1;
        }
        proof {
            assert forall|start: int| !is_free_run(self@, start, sectors_required as int) by {}
            lemma_first_fit_none(self@, sectors_required as int);
        }
        None
    }

    /// Length of the run of free sectors at the end of the bitmap.
    pub fn trailing_free(&self) -> (free: usize)
        ensures
            free == trailing_free(self@),
    {
        let total: usize = self.bit_len();
        let mut index: usize = total;
        while index > 0 && !self.bit(index - 1)
            invariant
                total == self@.len(),
                index <= total,
                free_run_before(self@, total as int) == free_run_before(self@, index as int) + (
                total - index),
            decreases index,
        {
            index -= 1;
        }
        total - index
    }

    /// Appends `additional` sectors, all in use.
    pub fn grow(&mut self, additional: usize)
        requires
            old(self)@.len() + additional <= usize::MAX / 8,
        ensures
            final(self)@ == grown(old(self)@, additional as int),
    {
        let mut added: usize = 0;
        while added < additional
            invariant
                added <= additional,
                old(self)@.len() + additional <= usize::MAX / 8,
                self@ == grown(old(self)@, added as int),
            decreases additional - added,
        {
            self.push_bit(true);
            added += 1;
            assert(self@ =~= grown(old(self)@, added as int));
        }
    }

    /// The bitmap of a file of `total_sectors` sectors: the two sectors of
    /// the header and every sector that an entry of `chunks_metadata` lies
    /// on are in use. Sectors of an entry beyond the file are skipped.
    pub fn from_header(total_sectors: usize, chunks_metadata: &[AnvilChunkMetadata]) -> (bitmap:
        Self)
        requires
            2 <= total_sectors <= usize::MAX / 8,
        ensures
            bitmap@ == used_sectors_of(total_sectors as int, chunks_metadata@),
    {
        let mut bitmap = SectorBitmap::repeat(false, total_sectors);
        bitmap.set_bit(0, true);
        bitmap.set_bit(1, true);
        let slots: usize = chunks_metadata.len();
        let mut slot: usize = 0;
        while slot < slots
            invariant
                slots == chunks_metadata@.len(),
                slot <= slots,
                bitmap@.len() == total_sectors,
                forall|sector: int|
                    0 <= sector < total_sectors ==> bitmap@[sector] == in_use_by(
                        chunks_metadata@,
                        slot as int,
                        sector,
                    ),
            decreases slots - slot,
        {
            let metadata: AnvilChunkMetadata = chunks_metadata[slot];
            let start: u64 = metadata.sector_index as u64;
            let end: u64 = start + metadata.sectors as u64;
            let mut index: u64 = start;
            while index < end
                invariant
                    slot < slots == chunks_metadata@.len(),
                    metadata == chunks_metadata@[slot as int],
                    start == metadata.sector_index,
                    end == metadata.end(),
                    start <= index <= end,
                    bitmap@.len() == total_sectors,
                    forall|sector: int|
                        0 <= sector < total_sectors ==> bitmap@[sector] == (in_use_by(
                            chunks_metadata@,
                            slot as int,
                            sector,
                        ) || start <= sector < index),
                decreases end - index,
            {
                if index < total_sectors as u64 {
                    bitmap.set_bit(index as usize, true);
                }
                index += 1;
            }
            proof {
                assert forall|sector: int| 0 <= sector < total_sectors implies bitmap@[sector]
                    == in_use_by(chunks_metadata@, slot + 1, sector) by {
                    if metadata.covers(sector) {
                        assert(chunks_metadata@[slot as int].covers(sector));
                    }
                }
            }
            slot += 1;
        }
        assert(bitmap@ =~= used_sectors_of(total_sectors as int, chunks_metadata@));
        bitmap
    }
}

} // verus!
