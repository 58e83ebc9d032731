//! Scatter-gather lists: the physical region descriptor table of a command.
//!
//! A buffer is contiguous in virtual memory, but the pages behind it may lie
//! anywhere in physical memory. The adapter transfers physical memory, so a
//! command carries a list of segments, each a run of physically contiguous
//! bytes of at most 4 MB. The list is built by cutting the buffer wherever the
//! next page does not follow the one before it in physical memory, and
//! wherever a segment has reached the largest size.

use vstd::prelude::*;
use crate::storage_ahci::error::AhciError;
use crate::storage_ahci::hw::PAGE_SIZE;

verus! {

/// Largest number of bytes that one entry can describe.
pub const MAX_SEG_LEN: usize = 0x40_0000;

/// Flag in an entry's byte count: raise an interrupt when the entry is done.
pub const PRDT_IOC: u32 = 0x8000_0000;

/// One entry of a physical region descriptor table.
#[derive(Clone, Copy, Debug, PartialEq, Eq, Structural)]
pub struct PrdtEntry {
    /// Physical address of the first byte.
    pub dba: u64,
    /// Number of bytes minus one in the low 22 bits, the interrupt flag in the
    /// top bit.
    pub dbc: u32,
}

impl PrdtEntry {
    /// Number of bytes that the entry describes.
    pub open spec fn byte_count(self) -> int {
        self.dbc % 0x40_0000 + 1
    }

    /// Whether the entry asks for an interrupt on completion.
    pub open spec fn interrupts(self) -> bool {
        self.dbc >= 0x8000_0000
    }

    /// The entry for `len` bytes from `base` on.
    pub open spec fn of(base: int, len: int, ioc: bool) -> PrdtEntry {
        PrdtEntry {
            dba: base as u64,
            dbc: (len - 1 + if ioc {
                0x8000_0000int
            } else {
                0int
            }) as u32,
        }
    }

    /// Number of bytes that the entry describes.
    pub fn len(&self) -> (r: usize)
        ensures
            r == self.byte_count(),
            1 <= r <= MAX_SEG_LEN,
    {
        (self.dbc % 0x40_0000) as usize + 1
    }

    /// Whether the entry asks for an interrupt on completion.
    pub fn interrupt_on_completion(&self) -> (r: bool)
        ensures
            r == self.interrupts(),
    {
        self.dbc >= PRDT_IOC
    }
}

/// Where a buffer lies in memory.
pub struct BufferMap {
    /// Offset of the buffer's first byte in its page.
    pub offset: int,
    /// Length of the buffer in bytes.
    pub len: int,
    /// Physical address of each page that the buffer touches, in the order of
    /// the virtual addresses.
    pub frames: Seq<u64>,
}

/// A run of physically contiguous bytes.
pub struct Segment {
    /// Physical address of the first byte.
    pub base: int,
    /// Number of bytes.
    pub len: int,
}

impl Segment {
    /// Whether the adapter can transfer the segment directly: it starts on a
    /// 4-byte boundary and has an even length.
    pub open spec fn aligned(self) -> bool {
        self.base % 4 == 0 && self.len % 2 == 0
    }
}

/// Number of pages from page `page` on that follow one another in physical
/// memory.
pub open spec fn run_pages(frames: Seq<u64>, page: int) -> int
    decreases frames.len() - page,
{
    if 0 <= page && page + 1 < frames.len() && frames[page + 1] == frames[page] + 0x1000 {
        1 + run_pages(frames, page + 1)
    } else {
        1
    }
}

impl BufferMap {
    /// The invariant of a buffer's map: the buffer is not empty, it starts
    /// inside its first page, and `frames` holds one page address for each page
    /// from the first byte's to the last byte's.
    pub open spec fn wf(self) -> bool {
        &&& 0 <= self.offset < 0x1000
        &&& 0 < self.len
        &&& self.offset + self.len <= usize::MAX
        &&& self.frames.len() == (self.offset + self.len - 1) / 0x1000 + 1
        &&& forall|i: int| 0 <= i < self.frames.len() ==> #[trigger] self.frames[i] % 0x1000 == 0
    }

    /// Physical address of the buffer's byte `pos`.
    pub open spec fn phys(self, pos: int) -> int {
        self.frames[(self.offset + pos) / 0x1000] + (self.offset + pos) % 0x1000
    }

    /// Number of bytes from byte `pos` on that follow one another in physical
    /// memory, up to the end of the last page of such a run.
    pub open spec fn run_len(self, pos: int) -> int {
        run_pages(self.frames, (self.offset + pos) / 0x1000) * 0x1000 - (self.offset + pos)
            % 0x1000
    }

    /// Length of the segment that starts at byte `pos`: up to the end of the
    /// buffer, to the first break in physical memory or to 4 MB, whichever
    /// comes first.
    pub open spec fn segment_len(self, pos: int) -> int {
        let rest = self.len - pos;
        let run = self.run_len(pos);
        let most = if rest < 0x40_0000 {
            rest
        } else {
            0x40_0000
        };
        if run < most {
            run
        } else {
            most
        }
    }

    /// The segment that starts at byte `pos`.
    pub open spec fn segment_at(self, pos: int) -> Segment {
        Segment { base: self.phys(pos), len: self.segment_len(pos) }
    }

    /// The segments of the buffer's bytes from `pos` on.
    pub open spec fn segments_from(self, pos: int) -> Seq<Segment>
        decreases self.len - pos,
    {
        if 0 <= pos < self.len && self.segment_len(pos) > 0 {
            seq![self.segment_at(pos)] + self.segments_from(pos + self.segment_len(pos))
        } else {
            Seq::empty()
        }
    }

    /// The segments of the buffer.
    pub open spec fn segments(self) -> Seq<Segment> {
        self.segments_from(0)
    }
}

/// The table for `segs`: one entry for each segment, the interrupt flag on the
/// last and on no other.
pub open spec fn prdt_of(segs: Seq<Segment>) -> Seq<PrdtEntry> {
    Seq::new(segs.len(), |k: int| PrdtEntry::of(segs[k].base, segs[k].len, k == segs.len() - 1))
}

/// A run of pages is at least one page long and ends inside the buffer's pages.
pub proof fn lemma_run_pages_bound(frames: Seq<u64>, page: int)
    requires
        0 <= page < frames.len(),
    ensures
        1 <= run_pages(frames, page) <= frames.len() - page,
    decreases frames.len() - page,
{
    if page + 1 < frames.len() && frames[page + 1] == frames[page] + 0x1000 {
        lemma_run_pages_bound(frames, page + 1);
    }
}

/// A segment that starts inside the buffer has at least one byte, at most 4 MB,
/// and ends inside the buffer.
pub proof fn lemma_segment_len_bound(map: BufferMap, pos: int)
    requires
        map.wf(),
        0 <= pos < map.len,
    ensures
        1 <= map.segment_len(pos) <= 0x40_0000,
        pos + map.segment_len(pos) <= map.len,
{
    lemma_run_pages_bound(map.frames, (map.offset + pos) / 0x1000);
}

/// The buffer as the caller hands it over: the virtual address of its first
/// byte, its length, and the physical address of each page it touches.
#[derive(Debug)]
pub struct DmaBuffer {
    offset: usize,
    len: usize,
    frames: Vec<u64>,
}

impl View for DmaBuffer {
    type V = BufferMap;

    closed spec fn view(&self) -> BufferMap {
        BufferMap { offset: self.offset as int, len: self.len as int, frames: self.frames@ }
    }
}

/// Whether a buffer of `len` bytes at virtual address `va` can lie in the
/// pages `frames`: the buffer ends inside the address space, and the map of
/// it is a buffer's map.
pub open spec fn frames_fit(va: usize, len: usize, frames: Seq<u64>) -> bool {
    va + len <= usize::MAX && (BufferMap {
        offset: va as int % 0x1000,
        len: len as int,
        frames,
    }).wf()
}

impl DmaBuffer {
    /// The invariant of the type: that of the buffer's map.
    #[verifier::type_invariant]
    pub open spec fn wf(&self) -> bool {
        self@.wf()
    }

    /// Describes the buffer of `len` bytes at virtual address `va`, whose
    /// pages have the physical addresses `frames`. `None` for an empty
    /// buffer, for one that runs over the end of the address space, and for
    /// `frames` that are not one page address for each page of the buffer.
    pub fn new(va: usize, len: usize, frames: Vec<u64>) -> (r: Option<DmaBuffer>)
        ensures
            r is Some <==> frames_fit(va, len, frames@),
            r matches Some(b) ==> b@ == (BufferMap {
                offset: va as int % 0x1000,
                len: len as int,
                frames: frames@,
            }) && b@.wf(),
    {
        let offset = va % PAGE_SIZE;
        if len == 0 || len > usize::MAX - va {
            return None;
        }
        if frames.len() != (offset + len - 1) / PAGE_SIZE + 1 {
            return None;
        }
        let mut i: usize = 0;
        while i < frames.len()
            invariant
                i <= frames.len(),
                forall|j: int| 0 <= j < i ==> #[trigger] frames[j] % 0x1000 == 0,
            decreases frames.len() - i,
        {
            if frames[i] % 0x1000 != 0 {
                return None;
            }
            i += 1;
        }
        Some(DmaBuffer { offset, len, frames })
    }

    /// Length of the buffer in bytes.
    pub fn len(&self) -> (r: usize)
        ensures
            r == self@.len,
            r > 0,
            self@.wf(),
    {
        proof {
            use_type_invariant(self);
        }
        self.len
    }

    /// Physical address of the buffer's byte `pos`.
    pub fn phys_at(&self, pos: usize) -> (r: u64)
        requires
            pos < self@.len,
        ensures
            r == self@.phys(pos as int),
    {
        proof {
            use_type_invariant(self);
        }
        let at = self.offset + pos;
        self.frames[at / PAGE_SIZE] + (at % PAGE_SIZE) as u64
    }

    /// Length of the segment that starts at byte `pos`.
    fn segment_len_at(&self, pos: usize) -> (r: usize)
        requires
            pos < self@.len,
        ensures
            r == self@.segment_len(pos as int),
            1 <= r <= MAX_SEG_LEN,
            pos + r <= self@.len,
    {
        proof {
            use_type_invariant(self);
            lemma_segment_len_bound(self@, pos as int);
        }
        let at = self.offset + pos;
        let rest = self.len - pos;
        let first = at / PAGE_SIZE;
        let mut last = first;
        let mut seglen = PAGE_SIZE - at % PAGE_SIZE;
        while seglen < rest && seglen <= MAX_SEG_LEN && self.frames[last + 1] >= 0x1000
            && self.frames[last + 1] - 0x1000 == self.frames[last]
            invariant
                self@.wf(),
                at == self.offset + pos,
                rest == self.len - pos,
                pos < self.len,
                first == at / 0x1000,
                first <= last < self.frames.len(),
                seglen == (last - first + 1) * 0x1000 - at % 0x1000,
                seglen < rest ==> last + 1 < self.frames.len(),
                run_pages(self.frames@, first as int) == (last - first) + run_pages(
                    self.frames@,
                    last as int,
                ),
            decreases self.frames.len() - last,
        {
            seglen += PAGE_SIZE;
            last += 1;
            proof {
                lemma_run_pages_bound(self.frames@, last as int);
            }
        }
        proof {
            lemma_run_pages_bound(self.frames@, last as int);
        }
        let seglen = if rest < seglen {
            rest
        } else {
            seglen
        };
        if MAX_SEG_LEN < seglen {
            MAX_SEG_LEN
        } else {
            seglen
        }
    }

    /// Builds the scatter-gather list of the buffer.
    ///
    /// The list has one entry for each segment of the buffer, in order, and
    /// the last entry alone asks for an interrupt. A segment that does not
    /// start on a 4-byte boundary, or whose length is odd, cannot be handed to
    /// the adapter, and the buffer is refused.
    pub fn build_prdt(&self) -> (r: Result<Vec<PrdtEntry>, AhciError>)
        ensures
            self@.wf(),
            r is Ok <==> all_aligned(self@.segments()),
            r matches Ok(entries) ==> entries@ == prdt_of(self@.segments()) && entries.len() > 0,
            r matches Err(e) ==> e == AhciError::UnalignedBuffer,
    {
        proof {
            use_type_invariant(self);
        }
        let ghost map = self@;
        let mut entries: Vec<PrdtEntry> = Vec::new();
        let mut pos: usize = 0;
        let ghost mut done: Seq<Segment> = Seq::empty();
        while pos < self.len
            invariant
                map == self@,
                map.wf(),
                pos <= self.len,
                map.segments() == done + map.segments_from(pos as int),
                entries.len() == done.len(),
                pos > 0 ==> done.len() > 0,
                forall|k: int| 0 <= k < done.len() ==> (#[trigger] done[k]).aligned(),
                forall|k: int|
                    0 <= k < done.len() ==> #[trigger] entries[k] == PrdtEntry::of(
                        done[k].base,
                        done[k].len,
                        false,
                    ),
                forall|k: int|
                    0 <= k < done.len() ==> 1 <= (#[trigger] done[k]).len <= 0x40_0000 && 0
                        <= done[k].base <= u64::MAX,
            decreases self.len - pos,
        {
            let base_phys = self.phys_at(pos);
            let seglen = self.segment_len_at(pos);
            let ghost seg = map.segment_at(pos as int);
            proof {
                assert(map.segments_from(pos as int) == seq![seg] + map.segments_from(
                    pos + seglen,
                ));
                assert(map.segments() =~= done.push(seg) + map.segments_from(pos + seglen));
            }
            if base_phys % 4 != 0 || seglen % 2 != 0 {
                proof {
                    assert(map.segments()[done.len() as int] == seg);
                    assert(!map.segments()[done.len() as int].aligned());
                }
                return Err(AhciError::UnalignedBuffer);
            }
            entries.push(PrdtEntry { dba: base_phys, dbc: (seglen - 1) as u32 });
            proof {
                done = done.push(seg);
            }
            pos += seglen;
        }
        proof {
            assert(map.segments_from(pos as int) =~= Seq::<Segment>::empty());
            assert(map.segments() =~= done);
        }
        let n = entries.len();
        let last = entries[n - 1];
        entries.set(n - 1, PrdtEntry { dba: last.dba, dbc: last.dbc + PRDT_IOC });
        proof {
            assert(entries@ =~= prdt_of(map.segments()));
        }
        Ok(entries)
    }
}

impl BufferMap {
    /// Where segment `k` of the buffer starts, as an offset into the buffer.
    /// For `k` the number of segments, the end of the buffer.
    pub open spec fn segment_start(self, k: nat) -> int
        decreases k,
    {
        if k == 0 {
            0
        } else {
            let before = self.segment_start((k - 1) as nat);
            before + self.segment_len(before)
        }
    }

    /// Whether the buffer lies in one piece in physical memory.
    pub open spec fn contiguous(self) -> bool {
        forall|i: int|
            0 <= i < self.frames.len() - 1 ==> #[trigger] self.frames[i + 1] == self.frames[i]
                + 0x1000
    }

    /// Whether no page of the buffer is followed in physical memory by the
    /// buffer's next page.
    pub open spec fn scattered(self) -> bool {
        forall|i: int|
            0 <= i < self.frames.len() - 1 ==> #[trigger] self.frames[i + 1] != self.frames[i]
                + 0x1000
    }
}

/// The pages of a run follow one another in physical memory.
pub proof fn lemma_run_contiguous(frames: Seq<u64>, page: int, d: int)
    requires
        0 <= page < frames.len(),
        0 <= d < run_pages(frames, page),
    ensures
        page + d < frames.len(),
        frames[page + d] == frames[page] + d * 0x1000,
    decreases d,
{
    lemma_run_pages_bound(frames, page);
    if d > 0 {
        lemma_run_contiguous(frames, page + 1, d - 1);
    }
}

/// A run ends at the last page or before a page that does not follow.
pub proof fn lemma_run_end(frames: Seq<u64>, page: int)
    requires
        0 <= page < frames.len(),
    ensures
        page + run_pages(frames, page) == frames.len() || frames[page + run_pages(frames, page)]
            != frames[page + run_pages(frames, page) - 1] + 0x1000,
    decreases frames.len() - page,
{
    if page + 1 < frames.len() && frames[page + 1] == frames[page] + 0x1000 {
        lemma_run_end(frames, page + 1);
    }
}

/// The bytes of a segment follow one another in physical memory.
pub proof fn lemma_segment_contiguous(map: BufferMap, pos: int, off: int)
    requires
        map.wf(),
        0 <= pos < map.len,
        0 <= off < map.segment_len(pos),
    ensures
        map.phys(pos + off) == map.phys(pos) + off,
{
    let at = map.offset + pos;
    let first = at / 0x1000;
    let d = (at % 0x1000 + off) / 0x1000;
    lemma_run_pages_bound(map.frames, first);
    assert((at + off) / 0x1000 == first + d);
    assert((at + off) % 0x1000 == (at % 0x1000 + off) - d * 0x1000);
    lemma_run_contiguous(map.frames, first, d);
}

/// A segment is as long as it can be: where another segment follows, the
/// segment has the largest size, or the byte after it does not follow its last
/// byte in physical memory.
pub proof fn lemma_segment_maximal(map: BufferMap, pos: int)
    requires
        map.wf(),
        0 <= pos < map.len,
        pos + map.segment_len(pos) < map.len,
    ensures
        map.segment_len(pos) == 0x40_0000 || map.phys(pos + map.segment_len(pos)) != map.phys(pos)
            + map.segment_len(pos),
{
    let at = map.offset + pos;
    let first = at / 0x1000;
    let len = map.segment_len(pos);
    let run = run_pages(map.frames, first);
    lemma_run_pages_bound(map.frames, first);
    if len != 0x40_0000 {
        assert(len == run * 0x1000 - at % 0x1000);
        assert(at + len == (first + run) * 0x1000);
        assert((at + len) / 0x1000 == first + run);
        assert((at + len) % 0x1000 == 0);
        lemma_run_end(map.frames, first);
        lemma_run_contiguous(map.frames, first, run - 1);
    }
}

/// The segments lie end to end from the first byte of the buffer to its last:
/// segment `k` is the one that starts where segment `k - 1` ended, and the
/// last one ends where the buffer ends.
pub proof fn lemma_segments_tile(map: BufferMap, k: nat)
    requires
        map.wf(),
        k <= map.segments().len(),
    ensures
        0 <= map.segment_start(k) <= map.len,
        k < map.segments().len() ==> map.segment_start(k) < map.len && map.segments()[k as int]
            == map.segment_at(map.segment_start(k)),
        k == map.segments().len() ==> map.segment_start(k) == map.len,
        map.segments() =~= map.segments().take(k as int) + map.segments_from(
            map.segment_start(k),
        ),
    decreases k,
{
    if k > 0 {
        lemma_segments_tile(map, (k - 1) as nat);
        let before = map.segment_start((k - 1) as nat);
        lemma_segment_len_bound(map, before);
        let rest = map.segments_from(before + map.segment_len(before));
        assert(map.segments_from(before) == seq![map.segment_at(before)] + rest);
        assert(map.segments().take(k as int) =~= map.segments().take(k - 1).push(
            map.segment_at(before),
        ));
    }
    let here = map.segment_start(k);
    if here < map.len {
        lemma_segment_len_bound(map, here);
    }
}

/// Each entry of a buffer's table holds the address and the length of its
/// segment, and the last entry alone asks for an interrupt.
pub proof fn lemma_prdt_entries(map: BufferMap, k: int)
    requires
        map.wf(),
        0 <= k < map.segments().len(),
    ensures
        prdt_of(map.segments()).len() == map.segments().len(),
        prdt_of(map.segments())[k].dba == map.segments()[k].base,
        prdt_of(map.segments())[k].byte_count() == map.segments()[k].len,
        prdt_of(map.segments())[k].interrupts() <==> k == map.segments().len() - 1,
{
    lemma_segments_tile(map, k as nat);
    let pos = map.segment_start(k as nat);
    lemma_segment_len_bound(map, pos);
    assert(map.frames[(map.offset + pos) / 0x1000] % 0x1000 == 0);
}

/// Where all pages of a buffer follow one another, a run of pages reaches to
/// the last page.
proof fn lemma_contiguous_run(map: BufferMap, page: int)
    requires
        map.contiguous(),
        0 <= page < map.frames.len(),
    ensures
        run_pages(map.frames, page) == map.frames.len() - page,
    decreases map.frames.len() - page,
{
    if page + 1 < map.frames.len() {
        assert(map.frames[page + 1] == map.frames[page] + 0x1000);
        lemma_contiguous_run(map, page + 1);
    }
}

/// A buffer of at most 4 MB that lies in one piece in physical memory is one
/// segment, and its table is one entry with the interrupt flag set.
pub proof fn lemma_contiguous_buffer_one_entry(map: BufferMap)
    requires
        map.wf(),
        map.contiguous(),
        map.len <= 0x40_0000,
    ensures
        map.segments() =~= seq![Segment { base: map.phys(0), len: map.len }],
        prdt_of(map.segments()) =~= seq![PrdtEntry::of(map.phys(0), map.len, true)],
        prdt_of(map.segments())[0].interrupts(),
        prdt_of(map.segments())[0].byte_count() == map.len,
        all_aligned(map.segments()) <==> map.phys(0) % 4 == 0 && map.len % 2 == 0,
{
    lemma_contiguous_run(map, 0);
    assert(map.segment_len(0) == map.len);
    assert(map.segments_from(map.len) =~= Seq::<Segment>::empty());
    assert(map.segments() =~= seq![map.segment_at(0)]);
    lemma_prdt_entries(map, 0);
}

/// Where no page of a buffer is followed by the next, the segments from `pos`
/// on are one for each page from the page of `pos` to the last.
proof fn lemma_scattered_from(map: BufferMap, pos: int)
    requires
        map.wf(),
        map.scattered(),
        0 <= pos < map.len,
    ensures
        map.segments_from(pos).len() == map.frames.len() - (map.offset + pos) / 0x1000,
    decreases map.len - pos,
{
    let at = map.offset + pos;
    let page = at / 0x1000;
    if page + 1 < map.frames.len() {
        assert(map.frames[page + 1] != map.frames[page] + 0x1000);
    }
    assert(run_pages(map.frames, page) == 1);
    let len = map.segment_len(pos);
    lemma_segment_len_bound(map, pos);
    if pos + len < map.len {
        assert((at + len) / 0x1000 == page + 1);
        lemma_scattered_from(map, pos + len);
    } else {
        assert(map.segments_from(pos + len) =~= Seq::<Segment>::empty());
        assert((map.offset + map.len - 1) / 0x1000 == page);
    }
}

/// Whether each of the segments can go to the adapter as it is.
pub open spec fn all_aligned(segs: Seq<Segment>) -> bool {
    forall|k: int| 0 <= k < segs.len() ==> (#[trigger] segs[k]).aligned()
}

/// Segments are all aligned when the first is and the others are.
proof fn lemma_all_aligned_cons(first: Segment, rest: Seq<Segment>)
    ensures
        all_aligned(seq![first] + rest) <==> first.aligned() && all_aligned(rest),
{
    let all = seq![first] + rest;
    assert(all[0] == first);
    if all_aligned(all) {
        assert forall|k: int| 0 <= k < rest.len() implies (#[trigger] rest[k]).aligned() by {
            assert(all[k + 1] == rest[k]);
            assert(all[k + 1].aligned());
        }
    }
    if first.aligned() && all_aligned(rest) {
        assert forall|k: int| 0 <= k < all.len() implies (#[trigger] all[k]).aligned() by {
            if k > 0 {
                assert(all[k] == rest[k - 1]);
            }
        }
    }
}

/// Where no page of a buffer is followed by the next, a segment is the part
/// of the buffer in one page.
proof fn lemma_scattered_segment(map: BufferMap, pos: int)
    requires
        map.wf(),
        map.scattered(),
        0 <= pos < map.len,
    ensures
        map.segment_at(pos).base % 4 == (map.offset + pos) % 4,
        pos + map.segment_len(pos) < map.len ==> (map.offset + pos + map.segment_len(pos))
            % 0x1000 == 0,
        pos + map.segment_len(pos) == map.len || pos + map.segment_len(pos) < map.len,
        map.segment_len(pos) >= 1,
{
    let at = map.offset + pos;
    let page = at / 0x1000;
    if page + 1 < map.frames.len() {
        assert(map.frames[page + 1] != map.frames[page] + 0x1000);
    }
    assert(run_pages(map.frames, page) == 1);
    assert(map.frames[page] % 0x1000 == 0);
    lemma_segment_len_bound(map, pos);
}

/// Where no page of a buffer is followed by the next, the segments from the
/// start of a page on, or from the start of the buffer on, are all aligned
/// exactly when the first of them starts on a 4-byte boundary and the buffer
/// ends on an even byte.
proof fn lemma_scattered_aligned(map: BufferMap, pos: int)
    requires
        map.wf(),
        map.scattered(),
        0 <= pos < map.len,
    ensures
        all_aligned(map.segments_from(pos)) <==> (map.offset + pos) % 4 == 0 && (map.offset
            + map.len) % 2 == 0,
    decreases map.len - pos,
{
    let at = map.offset + pos;
    let len = map.segment_len(pos);
    let here = map.segment_at(pos);
    let rest = map.segments_from(pos + len);
    lemma_scattered_segment(map, pos);
    assert(map.segments_from(pos) == seq![here] + rest);
    lemma_all_aligned_cons(here, rest);
    assert(here.aligned() <==> at % 4 == 0 && len % 2 == 0);
    if pos + len < map.len {
        lemma_scattered_aligned(map, pos + len);
        assert((at + len) % 4 == 0);
        assert(at % 4 == 0 ==> len % 2 == 0);
    } else {
        assert(rest =~= Seq::<Segment>::empty());
        assert(at + len == map.offset + map.len);
    }
}

/// A buffer that spans `k` pages of which no two neighbours follow one
/// another in physical memory has `k` segments, and its table has `k`
/// entries, of which the last alone has the interrupt flag set.
pub proof fn lemma_scattered_buffer_entry_per_page(map: BufferMap)
    requires
        map.wf(),
        map.scattered(),
    ensures
        map.segments().len() == map.frames.len(),
        prdt_of(map.segments()).len() == map.frames.len(),
        forall|k: int|
            0 <= k < map.frames.len() ==> ((#[trigger] prdt_of(map.segments())[k]).interrupts()
                <==> k == map.frames.len() - 1),
        all_aligned(map.segments()) <==> map.offset % 4 == 0 && map.len % 2 == 0,
{
    lemma_scattered_from(map, 0);
    lemma_scattered_aligned(map, 0);
    assert forall|k: int| 0 <= k < map.frames.len() implies ((#[trigger] prdt_of(
        map.segments(),
    )[k]).interrupts() <==> k == map.frames.len() - 1) by {
        lemma_prdt_entries(map, k);
    }
}

/// Number of bytes in the first `k` of the segments `segs`.
pub open spec fn bytes_before(segs: Seq<Segment>, k: nat) -> int
    decreases k,
{
    if k == 0 {
        0
    } else {
        bytes_before(segs, (k - 1) as nat) + segs[k - 1].len
    }
}

/// Whether `segs` is a scatter-gather list of the buffer: the segments lie
/// end to end from the buffer's first byte to its last, each is a run of
/// physically contiguous bytes of at most 4 MB that starts where it says, and
/// each but the last is as long as it can be.
pub open spec fn is_scatter_list(map: BufferMap, segs: Seq<Segment>) -> bool {
    &&& bytes_before(segs, segs.len()) == map.len
    &&& forall|k: int|
        0 <= k < segs.len() ==> {
            let start = bytes_before(segs, k as nat);
            &&& 1 <= (#[trigger] segs[k]).len <= 0x40_0000
            &&& segs[k].base == map.phys(start)
            &&& forall|off: int|
                0 <= off < segs[k].len ==> #[trigger] map.phys(start + off) == segs[k].base + off
            &&& k < segs.len() - 1 ==> segs[k].len == 0x40_0000 || map.phys(start + segs[k].len)
                != segs[k].base + segs[k].len
        }
}

/// Bytes that follow one another in physical memory do not reach beyond the
/// end of their run.
proof fn lemma_contiguous_within_run(map: BufferMap, pos: int, n: int)
    requires
        map.wf(),
        0 <= pos < map.len,
        0 < n,
        pos + n <= map.len,
        forall|off: int| 0 <= off < n ==> #[trigger] map.phys(pos + off) == map.phys(pos) + off,
    ensures
        n <= map.run_len(pos),
{
    let at = map.offset + pos;
    let first = at / 0x1000;
    let run = run_pages(map.frames, first);
    let reach = map.run_len(pos);
    lemma_run_pages_bound(map.frames, first);
    if n > reach {
        lemma_run_end(map.frames, first);
        lemma_run_contiguous(map.frames, first, run - 1);
        assert(map.phys(pos + reach) == map.phys(pos) + reach);
        assert((at + reach) / 0x1000 == first + run);
        assert((at + reach) % 0x1000 == 0);
        assert(first + run < map.frames.len());
    }
}

/// The segments of a buffer are a scatter-gather list of it.
pub proof fn lemma_segments_are_scatter_list(map: BufferMap)
    requires
        map.wf(),
    ensures
        is_scatter_list(map, map.segments()),
{
    let segs = map.segments();
    lemma_starts_agree(map, segs.len());
    lemma_segments_tile(map, segs.len());
    assert forall|k: int| 0 <= k < segs.len() implies {
        let start = bytes_before(segs, k as nat);
        &&& 1 <= (#[trigger] segs[k]).len <= 0x40_0000
        &&& segs[k].base == map.phys(start)
        &&& forall|off: int|
            0 <= off < segs[k].len ==> #[trigger] map.phys(start + off) == segs[k].base + off
        &&& k < segs.len() - 1 ==> segs[k].len == 0x40_0000 || map.phys(start + segs[k].len)
            != segs[k].base + segs[k].len
    } by {
        let start = bytes_before(segs, k as nat);
        lemma_starts_agree(map, k as nat);
        lemma_segments_tile(map, k as nat);
        lemma_segment_len_bound(map, start);
        assert forall|off: int| 0 <= off < segs[k].len implies #[trigger] map.phys(start + off)
            == segs[k].base + off by {
            lemma_segment_contiguous(map, start, off);
        }
        if k < segs.len() - 1 {
            lemma_starts_agree(map, (k + 1) as nat);
            lemma_segments_tile(map, (k + 1) as nat);
            lemma_segment_maximal(map, start);
        }
    }
}

/// The first `k` segments of a buffer end where segment `k` starts.
proof fn lemma_starts_agree(map: BufferMap, k: nat)
    requires
        map.wf(),
        k <= map.segments().len(),
    ensures
        bytes_before(map.segments(), k) == map.segment_start(k),
    decreases k,
{
    if k > 0 {
        lemma_starts_agree(map, (k - 1) as nat);
        lemma_segments_tile(map, (k - 1) as nat);
    }
}

/// A buffer has one scatter-gather list: its segments.
pub proof fn lemma_scatter_list_unique(map: BufferMap, segs: Seq<Segment>)
    requires
        map.wf(),
        is_scatter_list(map, segs),
    ensures
        segs =~= map.segments(),
{
    lemma_scatter_prefix(map, segs, segs.len());
    let ours = map.segments();
    lemma_bytes_before_grow(segs, segs.len());
    if segs.len() < ours.len() {
        lemma_segments_tile(map, segs.len());
    }
    assert(segs.len() == ours.len());
    assert forall|k: int| 0 <= k < segs.len() implies segs[k] == ours[k] by {
        lemma_scatter_prefix(map, segs, (k + 1) as nat);
    }
}

/// The bytes in the first `k` segments of a list grow with `k` where every
/// segment has a byte.
proof fn lemma_bytes_before_grow(segs: Seq<Segment>, k: nat)
    requires
        k <= segs.len(),
        forall|j: int| 0 <= j < segs.len() ==> (#[trigger] segs[j]).len >= 1,
    ensures
        bytes_before(segs, k) >= k,
    decreases k,
{
    if k > 0 {
        lemma_bytes_before_grow(segs, (k - 1) as nat);
    }
}

/// The first `k` segments of a scatter-gather list of a buffer are the first
/// `k` segments of the buffer.
proof fn lemma_scatter_prefix(map: BufferMap, segs: Seq<Segment>, k: nat)
    requires
        map.wf(),
        is_scatter_list(map, segs),
        k <= segs.len(),
    ensures
        k <= map.segments().len(),
        bytes_before(segs, k) == map.segment_start(k),
        forall|j: int| 0 <= j < k ==> segs[j] == map.segments()[j],
    decreases k,
{
    if k > 0 {
        let j = (k - 1) as nat;
        lemma_scatter_prefix(map, segs, j);
        let start = bytes_before(segs, j);
        let theirs = segs[j as int];
        lemma_bytes_later(segs, j, segs.len());
        assert(start + theirs.len <= map.len);
        lemma_segments_tile(map, j);
        assert(start < map.len);
        assert(j < map.segments().len());
        let len = map.segment_len(start);
        lemma_segment_len_bound(map, start);
        assert forall|off: int| 0 <= off < theirs.len implies #[trigger] map.phys(start + off)
            == map.phys(start) + off by {
            assert(map.phys(start + off) == theirs.base + off);
        }
        lemma_contiguous_within_run(map, start, theirs.len);
        assert(theirs.len <= len);
        if theirs.len < len {
            lemma_segment_contiguous(map, start, theirs.len);
            assert(j < segs.len() - 1) by {
                if j == segs.len() - 1 {
                    assert(bytes_before(segs, segs.len()) == start + theirs.len);
                }
            }
        }
        assert(theirs.len == len);
        assert(theirs == map.segment_at(start));
    }
}

/// The bytes in the first `k` segments of a scatter-gather list are no more
/// than those in the first `n`, for `k` up to `n`.
proof fn lemma_bytes_later(segs: Seq<Segment>, k: nat, n: nat)
    requires
        k < n <= segs.len(),
        forall|j: int| 0 <= j < segs.len() ==> (#[trigger] segs[j]).len >= 1,
    ensures
        bytes_before(segs, k) + segs[k as int].len <= bytes_before(segs, n),
    decreases n,
{
    if n > k + 1 {
        lemma_bytes_later(segs, k, (n - 1) as nat);
    }
}

} // verus!
