//! The flash store on the SD card: one file of the flash's size.
//!
//! Changed blocks are tracked in a bitmap. A save takes the bitmap over and writes either
//! the whole file, where there is none at the right size, or the changed blocks through the
//! file system, or, once the file's cluster addresses are known and checked, the clusters of
//! the changed blocks by DMA in the background. A save that fails marks its blocks changed
//! again.
//!
//! The caller drives the card: each function here decides the next operation from the state
//! and from how the last operation went.

use crate::bitmap;
use crate::bitmap::{
    bm_is_empty, bm_set_span, bm_union, bm_zero, cl_clear, cl_next, cl_set, cl_test,
};
use vstd::prelude::*;

verus! {

/// The flash's size.
pub const FLASH_SIZE: usize = 0x0080_0000;

/// Bytes per tracked block.
pub const BLOCK_SIZE: usize = 0x1_0000;

pub const NUM_BLOCKS: usize = 128;

pub const NUM_BITMAP_WORDS: usize = 4;

/// Bytes per read or write of a whole-file transfer.
pub const PROGRESS_CHUNK: usize = 0x1_0000;

/// The same where sound goes out over HDMI: progress shows in smaller steps.
pub const HDMI_PROGRESS_CHUNK: usize = 0x4000;

/// Bytes per progress dot.
pub const PROGRESS_DOT: usize = 0x4_0000;

/// The most clusters whose addresses are kept.
pub const MAX_FLASH_CLUSTERS: usize = 2048;

pub const CL_BITMAP_WORDS: usize = 64;

/// The state of the store.
pub struct SdBackend {
    /// The flash.
    pub flash: Vec<u8>,
    /// Whether sound goes out over HDMI.
    pub hdmi_audio: bool,
    /// Changed blocks.
    pub dirty: Vec<u32>,
    /// Whether the file is there at its size and holds the flash but for changed blocks.
    pub file_valid: bool,
    /// Whether the card is up.
    pub init_done: bool,
    /// The first block of each cluster of the file.
    pub lbas: Vec<u32>,
    /// How many of those are known; zero keeps saves on the file system.
    pub num_clusters: usize,
    /// Blocks per cluster.
    pub bpc: u32,
    /// Whether a cluster is being written.
    pub save_active: bool,
    /// Which.
    pub save_cluster: usize,
    /// Clusters still to be written, the one under way included.
    pub save_remaining: usize,
    /// Clusters that wait to be written.
    pub pending: Vec<u32>,
    /// The blocks the background save took over.
    pub snapshot: Vec<u32>,
    /// The blocks the file-system save took over.
    pub fat_snapshot: Vec<u32>,
}

/// What the state of the store means.
#[verifier::ext_equal]
pub struct SdView {
    pub flash: Seq<u8>,
    pub hdmi_audio: bool,
    pub dirty: Set<int>,
    pub file_valid: bool,
    pub init_done: bool,
    pub lbas: Seq<u32>,
    pub num_clusters: int,
    pub bpc: int,
    pub active: bool,
    pub cluster: int,
    pub remaining: int,
    pub pending: Set<int>,
    pub snapshot: Set<int>,
    pub fat_snapshot: Set<int>,
}

impl View for SdBackend {
    type V = SdView;

    open spec fn view(&self) -> SdView {
        SdView {
            flash: self.flash@,
            hdmi_audio: self.hdmi_audio,
            dirty: bitmap::members(self.dirty@),
            file_valid: self.file_valid,
            init_done: self.init_done,
            lbas: self.lbas@,
            num_clusters: self.num_clusters as int,
            bpc: self.bpc as int,
            active: self.save_active,
            cluster: self.save_cluster as int,
            remaining: self.save_remaining as int,
            pending: bitmap::members(self.pending@),
            snapshot: bitmap::members(self.snapshot@),
            fat_snapshot: bitmap::members(self.fat_snapshot@),
        }
    }
}

/// Bytes per cluster.
pub open spec fn cluster_bytes(bpc: int) -> int {
    512 * bpc
}

/// Whether block `b` and cluster `c` share a byte.
pub open spec fn overlap(b: int, c: int, bpc: int) -> bool {
    c * cluster_bytes(bpc) < (b + 1) * BLOCK_SIZE && b * BLOCK_SIZE < (c + 1) * cluster_bytes(bpc)
}

/// The known clusters that share a byte with a block of `blocks`.
pub open spec fn touched(blocks: Set<int>, bpc: int, n: int) -> Set<int> {
    Set::new(
        |c: int| 0 <= c < n && exists|b: int| #[trigger] blocks.contains(b) && overlap(b, c, bpc),
    )
}

/// Whether every cluster of `s` has a kept address and starts in the flash.
pub open spec fn in_flash(s: Set<int>, bpc: int) -> bool {
    forall|c: int| #[trigger]
        s.contains(c) ==> 0 <= c < MAX_FLASH_CLUSTERS && c * cluster_bytes(bpc) < FLASH_SIZE
}

/// Whether every cluster of `s` comes after `cluster`.
pub open spec fn behind(s: Set<int>, cluster: int) -> bool {
    forall|c: int| #[trigger] s.contains(c) ==> c > cluster
}

impl SdView {
    /// The invariant: the bitmaps stay in range; cluster addresses are known only of a valid
    /// file; while a cluster is under way, every waiting cluster is known, starts in the flash
    /// and comes behind that one.
    pub open spec fn wf(self) -> bool {
        &&& self.flash.len() == FLASH_SIZE
        &&& self.lbas.len() == MAX_FLASH_CLUSTERS
        &&& 0 <= self.num_clusters <= MAX_FLASH_CLUSTERS
        &&& self.num_clusters != 0 ==> self.file_valid && self.bpc > 0
        &&& self.active ==> in_flash(self.pending, self.bpc) && behind(self.pending, self.cluster)
        &&& self.active ==> self.init_done && self.bpc > 0 && self.cluster < MAX_FLASH_CLUSTERS
        &&& forall|b: int| #[trigger] self.dirty.contains(b) ==> 0 <= b < NUM_BLOCKS
        &&& forall|b: int| #[trigger] self.snapshot.contains(b) ==> 0 <= b < NUM_BLOCKS
        &&& forall|b: int| #[trigger] self.fat_snapshot.contains(b) ==> 0 <= b < NUM_BLOCKS
    }
}

/// A cluster write for the DMA engine.
#[derive(Clone, Copy, PartialEq, Eq, Structural)]
pub struct DmaWrite {
    pub cluster: usize,
    pub lba: u32,
    pub off: usize,
    pub len: usize,
}

/// Whether `w` is the write of cluster `ci` in state `v`: its address, its place in the
/// flash, and its bytes as far as the flash reaches.
pub open spec fn is_write_of(v: SdView, w: DmaWrite, ci: int) -> bool {
    &&& w.cluster == ci
    &&& w.lba == v.lbas[ci]
    &&& w.off == ci * cluster_bytes(v.bpc)
    &&& w.len == if cluster_bytes(v.bpc) < FLASH_SIZE - w.off {
        cluster_bytes(v.bpc)
    } else {
        FLASH_SIZE - w.off
    }
}

/// What the background save does next.
#[derive(Clone, Copy, PartialEq, Eq, Structural)]
pub enum DmaStep {
    /// Nothing is under way.
    Stray,
    /// Start this write and report how it went.
    Start(DmaWrite),
    /// All clusters are written.
    Complete,
    /// Tear the channel down; the blocks are marked changed again.
    Abort,
}

/// What a save does next.
#[derive(Clone, Copy, PartialEq, Eq, Structural)]
pub enum SaveStep {
    /// The save has ended, well or not, or there is none.
    Done,
    /// A background save starts with this.
    Dma(DmaStep),
    OpenVolume,
    OpenRoot,
    /// Open the file, created or emptied.
    Create,
    /// Write the flash from the first offset to before the second.
    WriteChunk(usize, usize),
    FlushFull,
    /// Look up and check the cluster addresses.
    Resolve,
    /// Open the file that is there.
    OpenExisting,
    /// Seek to this block.
    Seek(usize),
    /// Write this block.
    WriteBlock(usize),
    Flush,
}

/// The state with an aborted background save: its blocks are changed again, and saves go
/// back to the file system.
pub open spec fn aborted(v: SdView) -> SdView {
    SdView {
        dirty: v.dirty.union(v.snapshot),
        num_clusters: 0,
        remaining: 0,
        active: false,
        ..v
    }
}

/// Whether the background save, scanning from cluster `from` in state `v`, goes on to state
/// `w` with step `s`: it takes the first waiting cluster out, or ends where there is none.
pub open spec fn advances(v: SdView, from: int, w: SdView, s: DmaStep) -> bool {
    match s {
        DmaStep::Start(dw) => {
            let ci = dw.cluster as int;
            &&& bitmap::is_next(v.pending, from, ci)
            &&& is_write_of(v, dw, ci)
            &&& w == SdView { pending: v.pending.remove(ci), ..v }
        },
        DmaStep::Complete => {
            &&& bitmap::none_from(v.pending, from)
            &&& w == SdView { remaining: 0, active: false, ..v }
        },
        _ => false,
    }
}

/// Whether a save that finds cluster addresses known goes from state `v`, its changed
/// blocks, to state `w` with step `s`.
pub open spec fn starts_dma(v: SdView, w: SdView, s: SaveStep) -> bool {
    let clusters = touched(v.dirty, v.bpc, v.num_clusters);
    if v.active {
        // The save before this one goes on; the blocks stay changed.
        w == v && s == SaveStep::Done
    } else if clusters == Set::<int>::empty() {
        w == SdView { dirty: Set::empty(), pending: Set::empty(), ..v } && s == SaveStep::Done
    } else {
        let v1 = SdView {
            dirty: Set::empty(),
            pending: clusters,
            snapshot: v.dirty,
            remaining: clusters.len() as int,
            ..v
        };
        s matches SaveStep::Dma(d) && advances(v1, 0, w, d)
    }
}

/// Whether an autosave tick in state `v` goes to state `w` with step `s`.
pub open spec fn save_begins(v: SdView, w: SdView, s: SaveStep) -> bool {
    if !v.init_done {
        w == v && s == SaveStep::Done
    } else if v.dirty == Set::<int>::empty() && v.file_valid {
        w == v && s == SaveStep::Done
    } else if v.num_clusters != 0 {
        starts_dma(v, w, s)
    } else {
        &&& w == SdView { dirty: Set::empty(), fat_snapshot: v.dirty, ..v }
        &&& s == SaveStep::OpenVolume
    }
}

/// The state with the blocks of a failed file-system save changed again.
pub open spec fn remarked(v: SdView) -> SdView {
    SdView { dirty: v.dirty.union(v.fat_snapshot), ..v }
}

/// Whether step `s` of an incremental save follows the block before `from`.
pub open spec fn next_block(v: SdView, from: int, s: SaveStep) -> bool {
    match s {
        SaveStep::Seek(b) => bitmap::is_next(v.fat_snapshot, from, b as int),
        SaveStep::Flush => bitmap::none_from(v.fat_snapshot, from),
        _ => false,
    }
}

/// Bytes per read or write of a whole-file transfer.
pub open spec fn chunk_size(hdmi_audio: bool) -> int {
    if hdmi_audio {
        HDMI_PROGRESS_CHUNK as int
    } else {
        PROGRESS_CHUNK as int
    }
}

/// The end of the chunk that starts at `off`.
pub open spec fn chunk_end(off: int, hdmi_audio: bool) -> int {
    if off + chunk_size(hdmi_audio) < FLASH_SIZE {
        off + chunk_size(hdmi_audio)
    } else {
        FLASH_SIZE as int
    }
}

/// Whether a file-system save in state `v` goes from step `at` to state `w` and step `s`
/// after the operation succeeded or failed.
pub open spec fn save_continues(v: SdView, at: SaveStep, ok: bool, w: SdView, s: SaveStep) -> bool {
    match at {
        SaveStep::OpenVolume => if ok {
            w == v && s == SaveStep::OpenRoot
        } else {
            w == remarked(v) && s == SaveStep::Done
        },
        SaveStep::OpenRoot => if !ok {
            w == remarked(v) && s == SaveStep::Done
        } else if v.file_valid {
            w == v && s == SaveStep::OpenExisting
        } else {
            w == v && s == SaveStep::Create
        },
        SaveStep::Create => if ok {
            w == v && s == SaveStep::WriteChunk(0, chunk_end(0, v.hdmi_audio) as usize)
        } else {
            w == remarked(v) && s == SaveStep::Done
        },
        SaveStep::WriteChunk(_, end) => if !ok {
            w == remarked(v) && s == SaveStep::Done
        } else if end < FLASH_SIZE {
            w == v && s == SaveStep::WriteChunk(
                end,
                chunk_end(end as int, v.hdmi_audio) as usize,
            )
        } else {
            w == v && s == SaveStep::FlushFull
        },
        SaveStep::FlushFull => if ok {
            w == SdView { file_valid: true, ..v } && s == SaveStep::Resolve
        } else {
            w == remarked(v) && s == SaveStep::Done
        },
        SaveStep::OpenExisting => if ok {
            w == v && next_block(v, 0, s)
        } else {
            w == remarked(SdView { file_valid: false, ..v }) && s == SaveStep::Done
        },
        SaveStep::Seek(b) => if ok {
            w == v && s == SaveStep::WriteBlock(b)
        } else {
            w == remarked(SdView { file_valid: false, ..v }) && s == SaveStep::Done
        },
        SaveStep::WriteBlock(b) => if ok {
            w == v && next_block(v, b + 1, s)
        } else {
            w == remarked(SdView { file_valid: false, ..v }) && s == SaveStep::Done
        },
        // A flush that fails after the blocks went out is left to the next save.
        SaveStep::Flush => w == v && s == SaveStep::Done,
        SaveStep::Resolve => w == v && s == SaveStep::Done,
        SaveStep::Dma(_) => w == v && s == SaveStep::Done,
        SaveStep::Done => w == v && s == SaveStep::Done,
    }
}

proof fn cluster_range(b: int, bpc: int, c: int)
    requires
        0 <= b < NUM_BLOCKS,
        bpc > 0,
    ensures
        ({
            let cb = cluster_bytes(bpc);
            let c0 = b * BLOCK_SIZE / cb;
            let c1 = (b * BLOCK_SIZE + BLOCK_SIZE - 1) / cb;
            &&& 0 <= c0 <= c1
            &&& overlap(b, c, bpc) <==> c0 <= c <= c1
            &&& c <= c1 ==> c * cb < FLASH_SIZE
        }),
{
    let cb = cluster_bytes(bpc);
    let x = b * BLOCK_SIZE;
    let y = x + BLOCK_SIZE - 1;
    let c0 = x / cb;
    let c1 = y / cb;
    vstd::arithmetic::div_mod::lemma_fundamental_div_mod(x, cb);
    vstd::arithmetic::div_mod::lemma_fundamental_div_mod(y, cb);
    vstd::arithmetic::div_mod::lemma_div_is_ordered(x, y, cb);
    vstd::arithmetic::div_mod::lemma_div_pos_is_pos(x, cb);
    let r0 = x % cb;
    let r1 = y % cb;
    assert(0 <= r0 < cb && 0 <= r1 < cb);
    assert((c + 1) * cb > x <==> c >= c0) by (nonlinear_arith)
        requires
            cb > 0,
            x == cb * c0 + r0,
            0 <= r0 < cb,
    ;
    assert(c * cb <= y <==> c <= c1) by (nonlinear_arith)
        requires
            cb > 0,
            y == cb * c1 + r1,
            0 <= r1 < cb,
    ;
}

impl SdBackend {
    /// The bitmaps have their sizes, and the state is well-formed.
    pub open spec fn wf(self) -> bool {
        &&& self.dirty@.len() == NUM_BITMAP_WORDS
        &&& self.snapshot@.len() == NUM_BITMAP_WORDS
        &&& self.fat_snapshot@.len() == NUM_BITMAP_WORDS
        &&& self.pending@.len() == CL_BITMAP_WORDS
        &&& self@.wf()
    }

    /// A store over the flash `flash` before the card is up.
    pub fn new(flash: Vec<u8>, hdmi_audio: bool) -> (b: SdBackend)
        requires
            flash@.len() == FLASH_SIZE,
        ensures
            b.wf(),
            b@ == (SdView {
                flash: flash@,
                hdmi_audio,
                dirty: Set::empty(),
                file_valid: false,
                init_done: false,
                lbas: Seq::new(MAX_FLASH_CLUSTERS as nat, |i: int| 0u32),
                num_clusters: 0,
                bpc: 0,
                active: false,
                cluster: 0,
                remaining: 0,
                pending: Set::empty(),
                snapshot: Set::empty(),
                fat_snapshot: Set::empty(),
            }),
    {
        let b = SdBackend {
            flash,
            hdmi_audio,
            dirty: vec![0u32; NUM_BITMAP_WORDS],
            file_valid: false,
            init_done: false,
            lbas: vec![0u32; MAX_FLASH_CLUSTERS],
            num_clusters: 0,
            bpc: 0,
            save_active: false,
            save_cluster: 0,
            save_remaining: 0,
            pending: vec![0u32; CL_BITMAP_WORDS],
            snapshot: vec![0u32; NUM_BITMAP_WORDS],
            fat_snapshot: vec![0u32; NUM_BITMAP_WORDS],
        };
        proof {
            bitmap::zero_words_have_no_members(b.dirty@);
            bitmap::zero_words_have_no_members(b.pending@);
            bitmap::zero_words_have_no_members(b.snapshot@);
            bitmap::zero_words_have_no_members(b.fat_snapshot@);
            assert(b.lbas@ =~= Seq::new(MAX_FLASH_CLUSTERS as nat, |i: int| 0u32));
        }
        b
    }

    /// Marks the blocks of `len` bytes at `off` changed; bytes past the flash have none.
    pub fn mark_dirty(&mut self, off: usize, len: usize)
        requires
            old(self).wf(),
            off + len <= usize::MAX,
        ensures
            final(self).wf(),
            final(self)@ == (SdView {
                dirty: old(self)@.dirty.union(
                    Set::new(
                        |b: int|
                            0 <= b < NUM_BLOCKS && b * BLOCK_SIZE < off + len && off < (b + 1)
                                * BLOCK_SIZE && len > 0,
                    ),
                ),
                ..old(self)@
            }),
    {
        let ghost hit = Set::new(
            |b: int|
                0 <= b < NUM_BLOCKS && b * BLOCK_SIZE < off + len && off < (b + 1) * BLOCK_SIZE
                    && len > 0,
        );
        if len == 0 {
            assert(self@.dirty.union(hit) =~= self@.dirty);
            return;
        }
        let first: usize = off / BLOCK_SIZE;
        let last: usize = (off + len - 1) / BLOCK_SIZE;
        if first >= NUM_BLOCKS {
            assert(self@.dirty.union(hit) =~= self@.dirty);
            return;
        }
        let last: usize = if last < NUM_BLOCKS - 1 {
            last
        } else {
            NUM_BLOCKS - 1
        };
        bm_set_span(&mut self.dirty, first, last);
        assert(Set::new(|i: int| first <= i <= last) =~= hit);
        assert(old(self)@.dirty.union(hit) =~= self@.dirty);
    }

    /// Adds the changed blocks of `words` again.
    fn remark_dirty(&mut self)
        requires
            old(self).wf(),
        ensures
            final(self).wf(),
            final(self)@ == remarked(old(self)@),
    {
        bm_union(&mut self.dirty, &self.fat_snapshot);
    }

    /// Gives up the background save.
    fn abort_save(&mut self)
        requires
            old(self).wf(),
        ensures
            final(self).wf(),
            final(self)@ == aborted(old(self)@),
    {
        bm_union(&mut self.dirty, &self.snapshot);
        self.num_clusters = 0;
        self.save_remaining = 0;
        self.save_active = false;
    }

    /// Ends the background save.
    fn finish_save(&mut self)
        requires
            old(self).wf(),
        ensures
            final(self).wf(),
            final(self)@ == (SdView { remaining: 0, active: false, ..old(self)@ }),
    {
        self.save_remaining = 0;
        self.save_active = false;
    }

    /// Takes the next waiting cluster from `from` on, or ends the save.
    fn advance_save(&mut self, from: usize) -> (s: DmaStep)
        requires
            old(self).wf(),
            old(self).bpc > 0,
            in_flash(old(self)@.pending, old(self)@.bpc),
        ensures
            final(self).wf(),
            advances(old(self)@, from as int, final(self)@, s),
    {
        match cl_next(&self.pending, from) {
            None => {
                self.finish_save();
                DmaStep::Complete
            },
            Some(ci) => {
                let ghost v = self@;
                assert(v.pending.contains(ci as int));
                cl_clear(&mut self.pending, ci);
                let cb: u64 = self.bpc as u64 * 512;
                assert(ci * cluster_bytes(v.bpc) < FLASH_SIZE);
                assert(ci as u64 * cb == ci * cluster_bytes(v.bpc)) by (nonlinear_arith)
                    requires
                        cb == 512 * v.bpc,
                        cluster_bytes(v.bpc) == 512 * v.bpc,
                ;
                let off: u64 = ci as u64 * cb;
                let rest: u64 = FLASH_SIZE as u64 - off;
                let len: u64 = if cb < rest {
                    cb
                } else {
                    rest
                };
                let lba = self.lbas[ci];
                DmaStep::Start(
                    DmaWrite { cluster: ci, lba, off: off as usize, len: len as usize },
                )
            },
        }
    }

    /// Takes note of how the start of a cluster write went: from now on it is under way, or
    /// the save is aborted.
    pub fn dma_started(&mut self, cluster: usize, ok: bool) -> (aborted_now: bool)
        requires
            old(self).wf(),
            old(self).init_done,
            cluster < MAX_FLASH_CLUSTERS,
            old(self).bpc > 0,
            in_flash(old(self)@.pending, old(self)@.bpc),
            behind(old(self)@.pending, cluster as int),
        ensures
            final(self).wf(),
            aborted_now == !ok,
            final(self)@ == if ok {
                SdView { active: true, cluster: cluster as int, ..old(self)@ }
            } else {
                aborted(old(self)@)
            },
    {
        if ok {
            self.save_cluster = cluster;
            self.save_active = true;
            false
        } else {
            self.abort_save();
            true
        }
    }

    /// Takes a DMA completion: `finish_ok` tells how the card took the end of the cluster
    /// write, and means nothing where no cluster is under way.
    pub fn on_dma_completion(&mut self, finish_ok: bool) -> (s: DmaStep)
        requires
            old(self).wf(),
        ensures
            final(self).wf(),
            if !old(self).save_active {
                s == DmaStep::Stray && final(self)@ == old(self)@
            } else if !finish_ok {
                s == DmaStep::Abort && final(self)@ == aborted(old(self)@)
            } else {
                let v = SdView {
                    remaining: if old(self)@.remaining > 0 {
                        old(self)@.remaining - 1
                    } else {
                        0
                    },
                    ..old(self)@
                };
                advances(v, old(self)@.cluster + 1, final(self)@, s)
            },
    {
        if !self.save_active {
            return DmaStep::Stray;
        }
        let ci = self.save_cluster;
        if !finish_ok {
            self.abort_save();
            return DmaStep::Abort;
        }
        self.save_remaining = if self.save_remaining > 0 {
            self.save_remaining - 1
        } else {
            0
        };
        self.advance_save(ci + 1)
    }

    /// Starts a background save of the changed blocks, unless one is under way.
    #[verifier::rlimit(30)]
    fn try_start_dma_save(&mut self) -> (s: SaveStep)
        requires
            old(self).wf(),
            old(self).num_clusters > 0,
        ensures
            final(self).wf(),
            starts_dma(old(self)@, final(self)@, s),
    {
        if self.save_active {
            return SaveStep::Done;
        }
        let ghost v = self@;
        let n = self.num_clusters;
        let cb: u64 = self.bpc as u64 * 512;
        let ghost bpc = v.bpc;
        bm_zero(&mut self.pending);
        let mut count: usize = 0;
        let mut blk: usize = 0;
        while blk < NUM_BLOCKS
            invariant
                blk <= NUM_BLOCKS,
                v.wf(),
                v == old(self)@,
                !v.active,
                self.dirty@ == old(self).dirty@,
                self.dirty@.len() == NUM_BITMAP_WORDS,
                self.snapshot@.len() == NUM_BITMAP_WORDS,
                self.fat_snapshot@.len() == NUM_BITMAP_WORDS,
                self.pending@.len() == CL_BITMAP_WORDS,
                n == v.num_clusters,
                0 < n <= MAX_FLASH_CLUSTERS,
                bpc == v.bpc,
                bpc > 0,
                bpc <= u32::MAX,
                cb == cluster_bytes(bpc),
                self@ == (SdView { pending: self@.pending, ..v }),
                self@.pending.finite(),
                count == self@.pending.len(),
                count <= MAX_FLASH_CLUSTERS,
                forall|c: int|
                    #![trigger self@.pending.contains(c)]
                    self@.pending.contains(c) <==> 0 <= c < n && exists|b: int|
                        0 <= b < blk && #[trigger] v.dirty.contains(b) && overlap(b, c, bpc),
            decreases NUM_BLOCKS - blk,
        {
            if cl_test(&self.dirty, blk) {
                let bstart: u64 = (blk * BLOCK_SIZE) as u64;
                let c0: u64 = bstart / cb;
                let c1: u64 = (bstart + BLOCK_SIZE as u64 - 1) / cb;
                let ghost before = self@.pending;
                proof {
                    cluster_range(blk as int, bpc, 0);
                }
                let mut ci: u64 = c0;
                while ci <= c1 && ci < n as u64
                    invariant
                        blk < NUM_BLOCKS,
                        v.wf(),
                        self.dirty@ == old(self).dirty@,
                        self.dirty@.len() == NUM_BITMAP_WORDS,
                        self.snapshot@.len() == NUM_BITMAP_WORDS,
                        self.fat_snapshot@.len() == NUM_BITMAP_WORDS,
                        self.pending@.len() == CL_BITMAP_WORDS,
                        0 < n <= MAX_FLASH_CLUSTERS,
                        c0 <= ci,
                        self@ == (SdView { pending: self@.pending, ..v }),
                        self@.pending.finite(),
                        count == self@.pending.len(),
                        count <= MAX_FLASH_CLUSTERS,
                        forall|c: int|
                            #![trigger self@.pending.contains(c)]
                            self@.pending.contains(c) <==> before.contains(c) || (c0 <= c < ci
                                && c <= c1 && c < n),
                        forall|c: int| #[trigger] before.contains(c) ==> 0 <= c < n,
                    decreases n + 1 - ci,
                {
                    let c: usize = ci as usize;
                    if !cl_test(&self.pending, c) {
                        let ghost p = self@.pending;
                        cl_set(&mut self.pending, c);
                        proof {
                            assert(p.insert(c as int).len() == p.len() + 1);
                            bounded_set_len(p.insert(c as int), n as int);
                        }
                        count = count + 1;
                    }
                    ci = ci + 1;
                }
                proof {
                    assert forall|c: int|
                        #![trigger self@.pending.contains(c)]
                        self@.pending.contains(c) <==> 0 <= c < n && exists|b: int|
                            0 <= b < blk + 1 && #[trigger] v.dirty.contains(b) && overlap(
                                b,
                                c,
                                bpc,
                            ) by {
                        cluster_range(blk as int, bpc, c);
                        assert(v.dirty.contains(blk as int));
                        if before.contains(c) {
                            let b = choose|b: int|
                                0 <= b < blk && #[trigger] v.dirty.contains(b) && overlap(
                                    b,
                                    c,
                                    bpc,
                                );
                            assert(v.dirty.contains(b));
                        }
                    }
                }
            } else {
                assert(!v.dirty.contains(blk as int));
            }
            blk = blk + 1;
        }
        let ghost clusters = touched(v.dirty, v.bpc, v.num_clusters);
        proof {
            assert forall|c: int| self@.pending.contains(c) == clusters.contains(c) by {
                if clusters.contains(c) {
                    let b = choose|b: int| #[trigger] v.dirty.contains(b) && overlap(b, c, v.bpc);
                    assert(0 <= b < NUM_BLOCKS);
                }
            }
            assert(self@.pending =~= clusters);
            assert forall|c: int| #[trigger] clusters.contains(c) implies c * cluster_bytes(bpc)
                < FLASH_SIZE by {
                let b = choose|b: int| #[trigger] v.dirty.contains(b) && overlap(b, c, v.bpc);
                cluster_range(b, bpc, c);
            }
        }
        if count == 0 {
            assert(clusters =~= Set::<int>::empty());
            bm_zero(&mut self.dirty);
            return SaveStep::Done;
        }
        assert(clusters != Set::<int>::empty());
        bm_zero(&mut self.snapshot);
        bm_union(&mut self.snapshot, &self.dirty);
        assert(self@.snapshot =~= v.dirty);
        bm_zero(&mut self.dirty);
        self.save_remaining = count;
        let d = self.advance_save(0);
        SaveStep::Dma(d)
    }

    /// The end of the chunk that starts at `off`.
    fn end_of_chunk(&self, off: usize) -> (end: usize)
        requires
            off < FLASH_SIZE,
        ensures
            end == chunk_end(off as int, self.hdmi_audio),
    {
        let chunk: usize = if self.hdmi_audio {
            HDMI_PROGRESS_CHUNK
        } else {
            PROGRESS_CHUNK
        };
        if off + chunk < FLASH_SIZE {
            off + chunk
        } else {
            FLASH_SIZE
        }
    }

    /// The next changed block of a file-system save, from `from` on.
    fn next_fat_block(&self, from: usize) -> (s: SaveStep)
        requires
            self.wf(),
        ensures
            next_block(self@, from as int, s),
    {
        match cl_next(&self.fat_snapshot, from) {
            Some(b) => SaveStep::Seek(b),
            None => SaveStep::Flush,
        }
    }

    /// An autosave tick: takes the changed blocks over and decides how to save them.
    pub fn maybe_save(&mut self) -> (s: SaveStep)
        requires
            old(self).wf(),
        ensures
            final(self).wf(),
            save_begins(old(self)@, final(self)@, s),
    {
        if !self.init_done {
            return SaveStep::Done;
        }
        let any = !bm_is_empty(&self.dirty);
        if !any && self.file_valid {
            return SaveStep::Done;
        }
        if self.num_clusters != 0 {
            return self.try_start_dma_save();
        }
        let ghost v = self@;
        bm_zero(&mut self.fat_snapshot);
        bm_union(&mut self.fat_snapshot, &self.dirty);
        assert(self@.fat_snapshot =~= v.dirty);
        bm_zero(&mut self.dirty);
        SaveStep::OpenVolume
    }

    /// Decides the next operation of a file-system save from how the last one went.
    pub fn save_step(&mut self, at: SaveStep, ok: bool) -> (s: SaveStep)
        requires
            old(self).wf(),
            old(self).num_clusters == 0,
            at matches SaveStep::WriteChunk(a, b) ==> a < b <= FLASH_SIZE,
            at matches SaveStep::WriteBlock(b) ==> b < NUM_BLOCKS,
        ensures
            final(self).wf(),
            save_continues(old(self)@, at, ok, final(self)@, s),
    {
        match at {
            SaveStep::OpenVolume => {
                if ok {
                    SaveStep::OpenRoot
                } else {
                    self.remark_dirty();
                    SaveStep::Done
                }
            },
            SaveStep::OpenRoot => {
                if !ok {
                    self.remark_dirty();
                    SaveStep::Done
                } else if self.file_valid {
                    SaveStep::OpenExisting
                } else {
                    SaveStep::Create
                }
            },
            SaveStep::Create => {
                if ok {
                    SaveStep::WriteChunk(0, self.end_of_chunk(0))
                } else {
                    self.remark_dirty();
                    SaveStep::Done
                }
            },
            SaveStep::WriteChunk(_, end) => {
                if !ok {
                    self.remark_dirty();
                    SaveStep::Done
                } else if end < FLASH_SIZE {
                    SaveStep::WriteChunk(end, self.end_of_chunk(end))
                } else {
                    SaveStep::FlushFull
                }
            },
            SaveStep::FlushFull => {
                if ok {
                    self.file_valid = true;
                    SaveStep::Resolve
                } else {
                    self.remark_dirty();
                    SaveStep::Done
                }
            },
            SaveStep::OpenExisting => {
                if ok {
                    self.next_fat_block(0)
                } else {
                    self.file_valid = false;
                    self.remark_dirty();
                    SaveStep::Done
                }
            },
            SaveStep::Seek(b) => {
                if ok {
                    SaveStep::WriteBlock(b)
                } else {
                    self.file_valid = false;
                    self.remark_dirty();
                    SaveStep::Done
                }
            },
            SaveStep::WriteBlock(b) => {
                if ok {
                    self.next_fat_block(b + 1)
                } else {
                    self.file_valid = false;
                    self.remark_dirty();
                    SaveStep::Done
                }
            },
            _ => SaveStep::Done,
        }
    }

    /// The FNV-1a hash of the flash.
    pub fn fingerprint(&self) -> (f: u32)
        ensures
            f == fnv1a(0x811C_9DC5, self@.flash),
    {
        fnv1a_32(&self.flash, 0x811C_9DC5)
    }
}

proof fn bounded_set_len(s: Set<int>, n: int)
    requires
        s.finite(),
        0 <= n,
        forall|c: int| #[trigger] s.contains(c) ==> 0 <= c < n,
    ensures
        s.len() <= n,
{
    vstd::set_lib::lemma_int_range(0, n);
    let all = vstd::set_lib::set_int_range(0, n);
    assert(s.subset_of(all));
    vstd::set_lib::lemma_len_subset(s, all);
}

/// The FNV-1a hash of `data`, from hash value `seed`.
pub open spec fn fnv1a(seed: u32, data: Seq<u8>) -> u32
    decreases data.len(),
{
    if data.len() == 0 {
        seed
    } else {
        (fnv1a(seed, data.drop_last()) ^ (data.last() as u32)).wrapping_mul(0x0100_0193)
    }
}

/// Computes the FNV-1a hash of `data`, from hash value `seed`.
pub fn fnv1a_32(data: &[u8], seed: u32) -> (h: u32)
    ensures
        h == fnv1a(seed, data@),
{
    let mut h: u32 = seed;
    let mut i: usize = 0;
    assert(data@.take(0) =~= Seq::<u8>::empty());
    while i < data.len()
        invariant
            i <= data@.len(),
            h == fnv1a(seed, data@.take(i as int)),
        decreases data@.len() - i,
    {
        proof {
            assert(data@.take(i + 1).drop_last() =~= data@.take(i as int));
        }
        h = (h ^ (data[i] as u32)).wrapping_mul(0x0100_0193);
        i = i + 1;
    }
    assert(data@.take(data@.len() as int) =~= data@);
    h
}

/// A hash can be carried on over a second part.
pub proof fn fnv_of_concatenation(seed: u32, a: Seq<u8>, b: Seq<u8>)
    ensures
        fnv1a(seed, a + b) == fnv1a(fnv1a(seed, a), b),
    decreases b.len(),
{
    if b.len() == 0 {
        assert(a + b =~= a);
    } else {
        fnv_of_concatenation(seed, a, b.drop_last());
        assert((a + b).drop_last() =~= a + b.drop_last());
    }
}

/// The hash of nothing is the seed, and a byte is taken in by an exclusive or with the hash so
/// far and a multiplication by the FNV prime.
pub proof fn fnv_takes_bytes_in_turn(seed: u32, s: Seq<u8>, b: u8)
    ensures
        fnv1a(seed, Seq::empty()) == seed,
        fnv1a(seed, s.push(b)) as int == (fnv1a(seed, s) ^ (b as u32)) * 16_777_619 % 0x1_0000_0000,
{
    assert(s.push(b).drop_last() =~= s);
}

/// A file-system save that fails loses no block: what was changed when it began is changed
/// again. The one exception is a flush that fails after every block went out.
pub proof fn failed_save_keeps_blocks(v: SdView, at: SaveStep, w: SdView, s: SaveStep, b: int)
    requires
        save_continues(v, at, false, w, s),
        !(at is Flush || at is Resolve || at is Dma || at is Done),
        v.fat_snapshot.contains(b) || v.dirty.contains(b),
    ensures
        s == SaveStep::Done,
        w.dirty.contains(b),
{
}

/// An aborted background save loses no block either, and the next save goes through the file
/// system.
pub proof fn aborted_save_keeps_blocks(v: SdView, b: int)
    requires
        v.snapshot.contains(b) || v.dirty.contains(b),
    ensures
        aborted(v).dirty.contains(b),
        aborted(v).num_clusters == 0,
{
}

/// A file-system save in which every operation succeeds: it begins in state `v`, and step
/// `steps[k]` is taken in state `states[k]`.
pub open spec fn successful_save(v: SdView, states: Seq<SdView>, steps: Seq<SaveStep>) -> bool {
    &&& states.len() == steps.len()
    &&& steps.len() > 0
    &&& save_begins(v, states[0], steps[0])
    &&& forall|k: int|
        0 < k < steps.len() ==> save_continues(
            states[k - 1],
            steps[k - 1],
            true,
            #[trigger] states[k],
            steps[k],
        )
}

/// After a block is written the save seeks the least changed block behind it, and it flushes
/// only where there is none; before the first block it seeks the least of all. What is sought
/// is what is written next.
pub proof fn next_changed_block_follows(v: SdView, at: SaveStep, w: SdView, s: SaveStep, b: int)
    requires
        at == SaveStep::OpenExisting && b == -1 || (at matches SaveStep::WriteBlock(x) && x == b),
        v.wf(),
        save_continues(v, at, true, w, s),
    ensures
        w == v,
        match s {
            SaveStep::Seek(c) => {
                &&& b < c
                &&& v.fat_snapshot.contains(c as int)
                &&& forall|x: int| #[trigger] v.fat_snapshot.contains(x) ==> x <= b || c <= x
                &&& save_continues(v, s, true, v, SaveStep::WriteBlock(c))
                &&& forall|u: SdView, t: SaveStep|
                    save_continues(v, s, true, u, t) ==> u == v && t == SaveStep::WriteBlock(c)
            },
            SaveStep::Flush => forall|x: int| #[trigger] v.fat_snapshot.contains(x) ==> x <= b,
            _ => false,
        },
{
}

/// How far a successful incremental save has come at step `k`.
proof fn incremental_save_so_far(v: SdView, states: Seq<SdView>, steps: Seq<SaveStep>, k: int)
    requires
        v.wf(),
        v.init_done,
        v.file_valid,
        v.num_clusters == 0,
        v.dirty != Set::<int>::empty(),
        successful_save(v, states, steps),
        0 <= k < steps.len(),
    ensures
        states[k] == (SdView { dirty: Set::empty(), fat_snapshot: v.dirty, ..v }),
        k == 0 ==> steps[k] == SaveStep::OpenVolume,
        k == 1 ==> steps[k] == SaveStep::OpenRoot,
        k == 2 ==> steps[k] == SaveStep::OpenExisting,
        k > 2 ==> match steps[k] {
            SaveStep::Seek(c) => {
                &&& v.dirty.contains(c as int)
                &&& forall|x: int| #[trigger]
                    v.dirty.contains(x) && x < c ==> written_in(steps, k, x)
                &&& forall|j: int| 0 <= j < k ==> (#[trigger] steps[j] matches SaveStep::WriteBlock(x)
                    ==> x < c)
            },
            SaveStep::WriteBlock(c) => {
                &&& v.dirty.contains(c as int)
                &&& forall|x: int| #[trigger]
                    v.dirty.contains(x) && x < c ==> written_in(steps, k, x)
                &&& forall|j: int| 0 <= j < k ==> (#[trigger] steps[j] matches SaveStep::WriteBlock(x)
                    ==> x < c)
                &&& steps[k - 1] == SaveStep::Seek(c)
            },
            SaveStep::Flush => forall|x: int| #[trigger]
                v.dirty.contains(x) ==> written_in(steps, k, x),
            SaveStep::Done => true,
            _ => false,
        },
    decreases k,
{
    if k > 0 {
        incremental_save_so_far(v, states, steps, k - 1);
        assert(save_continues(states[k - 1], steps[k - 1], true, states[k], steps[k]));
        if k > 3 && steps[k - 1] is WriteBlock {
            let b = steps[k - 1]->WriteBlock_0;
            assert forall|x: int| #[trigger] v.dirty.contains(x) && x <= b implies written_in(
                steps,
                k,
                x,
            ) by {
                if x == b {
                    assert(steps[k - 1] == SaveStep::WriteBlock(x as usize));
                } else {
                    assert(written_in(steps, k - 1, x));
                    let j = choose|j: int|
                        0 <= j < k - 1 && #[trigger] steps[j] == SaveStep::WriteBlock(x as usize);
                    assert(steps[j] == SaveStep::WriteBlock(x as usize));
                }
            }
        } else if k > 3 && steps[k - 1] is Seek {
            let c = steps[k - 1]->Seek_0;
            assert forall|x: int| #[trigger] v.dirty.contains(x) && x < c implies written_in(
                steps,
                k,
                x,
            ) by {
                assert(written_in(steps, k - 1, x));
                let j = choose|j: int|
                    0 <= j < k - 1 && #[trigger] steps[j] == SaveStep::WriteBlock(x as usize);
                assert(steps[j] == SaveStep::WriteBlock(x as usize));
            }
        }
    }
}

/// Whether block `b` is written before step `k`.
pub open spec fn written_in(steps: Seq<SaveStep>, k: int, b: int) -> bool {
    exists|j: int| 0 <= j < k && #[trigger] steps[j] == SaveStep::WriteBlock(b as usize)
}

/// A save to a valid file loses no block: when a save in which every operation succeeds comes
/// to its flush, each block that was changed when it began has been written, once, in rising
/// order and right after a seek to it, and no other block has. Nothing but the list of changed
/// blocks is different then.
pub proof fn incremental_save_writes_every_block(
    v: SdView,
    states: Seq<SdView>,
    steps: Seq<SaveStep>,
    n: int,
)
    requires
        v.wf(),
        v.init_done,
        v.file_valid,
        v.num_clusters == 0,
        successful_save(v, states, steps),
        0 <= n < steps.len(),
        steps[n] == SaveStep::Flush,
    ensures
        forall|b: int| #[trigger]
            v.dirty.contains(b) ==> exists|k: int|
                0 < k < n && #[trigger] steps[k] == SaveStep::WriteBlock(b as usize) && steps[k - 1]
                    == SaveStep::Seek(b as usize),
        forall|k: int|
            0 <= k < n ==> (#[trigger] steps[k] matches SaveStep::WriteBlock(c) ==> v.dirty.contains(
                c as int,
            ) && 0 < k && steps[k - 1] == SaveStep::Seek(c)),
        forall|j: int, k: int|
            0 <= j < k < n && #[trigger] steps[j] is WriteBlock && #[trigger] steps[k] is WriteBlock
                ==> steps[j]->WriteBlock_0 < steps[k]->WriteBlock_0,
        states[n] == (SdView { dirty: Set::empty(), fat_snapshot: v.dirty, ..v }),
{
    if v.dirty == Set::<int>::empty() && n > 0 {
        ended_save_stays_ended(v, states, steps, 0, n);
    }
    incremental_save_so_far(v, states, steps, n);
    assert forall|k: int| 0 <= k < n implies (#[trigger] steps[k] matches SaveStep::WriteBlock(c)
        ==> v.dirty.contains(c as int) && 0 < k && steps[k - 1] == SaveStep::Seek(c)) by {
        incremental_save_so_far(v, states, steps, k);
    }
    assert forall|b: int| #[trigger] v.dirty.contains(b) implies exists|k: int|
        0 < k < n && #[trigger] steps[k] == SaveStep::WriteBlock(b as usize) && steps[k - 1]
            == SaveStep::Seek(b as usize) by {
        assert(written_in(steps, n, b));
        let k = choose|k: int| 0 <= k < n && #[trigger] steps[k] == SaveStep::WriteBlock(b as usize);
        assert(steps[k] == SaveStep::WriteBlock(b as usize));
        assert(steps[k - 1] == SaveStep::Seek(b as usize));
    }
    assert forall|j: int, k: int|
        0 <= j < k < n && #[trigger] steps[j] is WriteBlock
            && #[trigger] steps[k] is WriteBlock implies steps[j]->WriteBlock_0
        < steps[k]->WriteBlock_0 by {
        incremental_save_so_far(v, states, steps, k);
    }
}

/// How far a successful save of the whole file has come at step `k`.
proof fn full_save_so_far(v: SdView, states: Seq<SdView>, steps: Seq<SaveStep>, k: int)
    requires
        v.wf(),
        v.init_done,
        !v.file_valid,
        successful_save(v, states, steps),
        0 <= k < steps.len(),
    ensures
        ({
            let u = SdView { dirty: Set::empty(), fat_snapshot: v.dirty, ..v };
            &&& k == 0 ==> steps[k] == SaveStep::OpenVolume && states[k] == u
            &&& k == 1 ==> steps[k] == SaveStep::OpenRoot && states[k] == u
            &&& k == 2 ==> steps[k] == SaveStep::Create && states[k] == u
            &&& k > 2 ==> match steps[k] {
                SaveStep::WriteChunk(a, e) => {
                    &&& states[k] == u
                    &&& a < e <= FLASH_SIZE
                    &&& k == 3 ==> a == 0
                    &&& k > 3 ==> (steps[k - 1] matches SaveStep::WriteChunk(_, p) && p == a)
                },
                SaveStep::FlushFull => {
                    &&& states[k] == u
                    &&& k > 3
                    &&& steps[k - 1] matches SaveStep::WriteChunk(_, p) && p == FLASH_SIZE
                },
                SaveStep::Resolve => {
                    &&& states[k] == SdView { file_valid: true, ..u }
                    &&& k > 4
                    &&& steps[k - 1] == SaveStep::FlushFull
                },
                SaveStep::Done => states[k] == SdView { file_valid: true, ..u },
                _ => false,
            }
        }),
    decreases k,
{
    if k > 0 {
        full_save_so_far(v, states, steps, k - 1);
        assert(save_continues(states[k - 1], steps[k - 1], true, states[k], steps[k]));
    }
}

proof fn ended_save_stays_ended(
    v: SdView,
    states: Seq<SdView>,
    steps: Seq<SaveStep>,
    k: int,
    n: int,
)
    requires
        successful_save(v, states, steps),
        0 <= k < n < steps.len(),
        steps[k] is Resolve || steps[k] is Done,
    ensures
        steps[n] is Done,
    decreases n - k,
{
    if k < n - 1 {
        ended_save_stays_ended(v, states, steps, k, n - 1);
    }
    assert(save_continues(states[n - 1], steps[n - 1], true, states[n], steps[n]));
}

/// The chunks before step `k` cover the flash up to where the last of them ends.
proof fn chunks_cover(v: SdView, states: Seq<SdView>, steps: Seq<SaveStep>, k: int, x: int)
    requires
        v.wf(),
        v.init_done,
        !v.file_valid,
        successful_save(v, states, steps),
        2 < k < steps.len(),
        steps[k] matches SaveStep::WriteChunk(_, e) && x < e,
        0 <= x,
    ensures
        exists|j: int|
            2 < j <= k && (#[trigger] steps[j] matches SaveStep::WriteChunk(a, e) && a <= x < e),
    decreases k,
{
    full_save_so_far(v, states, steps, k);
    let a = steps[k]->WriteChunk_0;
    if a <= x {
        assert(steps[k] matches SaveStep::WriteChunk(a, e) && a <= x < e);
    } else {
        full_save_so_far(v, states, steps, k - 1);
        chunks_cover(v, states, steps, k - 1, x);
    }
}

/// A save without a valid file writes the file whole: when a save in which every operation
/// succeeds comes to looking up the cluster addresses, each byte of the flash has been written,
/// the chunks follow one another from the start without gap or overlap, and only now the file
/// counts as valid.
pub proof fn full_save_writes_every_byte(
    v: SdView,
    states: Seq<SdView>,
    steps: Seq<SaveStep>,
    n: int,
    x: int,
)
    requires
        v.wf(),
        v.init_done,
        !v.file_valid,
        successful_save(v, states, steps),
        0 <= n < steps.len(),
        steps[n] == SaveStep::Resolve,
        0 <= x < FLASH_SIZE,
    ensures
        exists|k: int|
            0 <= k < n && (#[trigger] steps[k] matches SaveStep::WriteChunk(a, e) && a <= x < e),
        forall|k: int|
            0 < k < n ==> (#[trigger] steps[k] matches SaveStep::WriteChunk(a, e) ==> a < e
                <= FLASH_SIZE && (a == 0 && steps[k - 1] == SaveStep::Create || (steps[k
                - 1] matches SaveStep::WriteChunk(_, p) && p == a))),
        forall|k: int| 0 <= k < n ==> !(#[trigger] states[k]).file_valid,
        states[n] == (SdView {
            file_valid: true,
            dirty: Set::empty(),
            fat_snapshot: v.dirty,
            ..v
        }),
{
    full_save_so_far(v, states, steps, n);
    full_save_so_far(v, states, steps, n - 1);
    full_save_so_far(v, states, steps, n - 2);
    chunks_cover(v, states, steps, n - 2, x);
    assert forall|k: int| 0 < k < n implies (#[trigger] steps[k] matches SaveStep::WriteChunk(a, e)
        ==> a < e <= FLASH_SIZE && (a == 0 && steps[k - 1] == SaveStep::Create || (steps[k
        - 1] matches SaveStep::WriteChunk(_, p) && p == a))) by {
        full_save_so_far(v, states, steps, k);
        full_save_so_far(v, states, steps, k - 1);
    }
    assert forall|k: int| 0 <= k < n implies !(#[trigger] states[k]).file_valid by {
        full_save_so_far(v, states, steps, k);
        if steps[k] is Resolve || steps[k] is Done {
            ended_save_stays_ended(v, states, steps, k, n);
        }
    }
}

/// A failed save forgets nothing: whichever operation of a file-system save fails, each block
/// that was changed when the save began is changed again.
pub proof fn failed_save_forgets_nothing(
    v: SdView,
    states: Seq<SdView>,
    steps: Seq<SaveStep>,
    n: int,
    w: SdView,
    s: SaveStep,
    b: int,
)
    requires
        v.wf(),
        v.init_done,
        v.num_clusters == 0,
        successful_save(v, states, steps),
        0 <= n < steps.len(),
        !(steps[n] is Flush || steps[n] is Resolve || steps[n] is Done),
        save_continues(states[n], steps[n], false, w, s),
        v.dirty.contains(b),
    ensures
        w.dirty.contains(b),
        s == SaveStep::Done,
        w.file_valid ==> v.file_valid,
        w.flash == v.flash,
{
    if v.file_valid {
        incremental_save_so_far(v, states, steps, n);
    } else {
        full_save_so_far(v, states, steps, n);
    }
}

/// The state in which the completion of write `dw`, started in state `u`, is taken.
pub open spec fn under_way(u: SdView, dw: DmaWrite) -> SdView {
    SdView {
        active: true,
        cluster: dw.cluster as int,
        remaining: if u.remaining > 0 {
            u.remaining - 1
        } else {
            0
        },
        ..u
    }
}

/// A background save that begins in state `v` and so far has handed out the writes `ws`, all of
/// which started and all but the last of which ended well; `us[k]` is the state in which
/// `ws[k]` is handed out.
pub open spec fn background_save(v: SdView, us: Seq<SdView>, ws: Seq<DmaWrite>) -> bool {
    &&& us.len() == ws.len()
    &&& ws.len() > 0
    &&& save_begins(v, us[0], SaveStep::Dma(DmaStep::Start(ws[0])))
    &&& forall|k: int|
        0 < k < ws.len() ==> advances(
            under_way(us[k - 1], ws[k - 1]),
            ws[k - 1].cluster + 1,
            #[trigger] us[k],
            DmaStep::Start(ws[k]),
        )
}

/// Whether cluster `c` is among the first `n` writes.
pub open spec fn handed_out(ws: Seq<DmaWrite>, n: int, c: int) -> bool {
    exists|j: int| 0 <= j < n && (#[trigger] ws[j]).cluster == c
}

#[verifier::rlimit(40)]
proof fn background_save_so_far(v: SdView, us: Seq<SdView>, ws: Seq<DmaWrite>, k: int)
    requires
        v.wf(),
        !v.active,
        background_save(v, us, ws),
        0 <= k < ws.len(),
    ensures
        us[k].dirty == Set::<int>::empty(),
        us[k].snapshot == v.dirty,
        us[k].lbas == v.lbas,
        us[k].bpc == v.bpc,
        us[k].flash == v.flash,
        is_write_of(v, ws[k], ws[k].cluster as int),
        touched(v.dirty, v.bpc, v.num_clusters).contains(ws[k].cluster as int),
        behind(us[k].pending, ws[k].cluster as int),
        forall|j: int| 0 <= j < k ==> (#[trigger] ws[j]).cluster < ws[k].cluster,
        forall|c: int| #[trigger]
            touched(v.dirty, v.bpc, v.num_clusters).contains(c) ==> us[k].pending.contains(c)
                || handed_out(ws, k + 1, c),
        forall|c: int| #[trigger]
            us[k].pending.contains(c) ==> touched(v.dirty, v.bpc, v.num_clusters).contains(c),
    decreases k,
{
    let all = touched(v.dirty, v.bpc, v.num_clusters);
    if k > 0 {
        background_save_so_far(v, us, ws, k - 1);
        assert(advances(
            under_way(us[k - 1], ws[k - 1]),
            ws[k - 1].cluster + 1,
            us[k],
            DmaStep::Start(ws[k]),
        ));
    }
    assert forall|c: int| #[trigger] all.contains(c) implies us[k].pending.contains(c)
        || handed_out(ws, k + 1, c) by {
        if c == ws[k].cluster {
            assert(ws[k].cluster == c);
        } else if k > 0 && handed_out(ws, k, c) {
            let j = choose|j: int| 0 <= j < k && (#[trigger] ws[j]).cluster == c;
            assert(ws[j].cluster == c);
        }
    }
}

/// A background save loses no byte: when one in which every write succeeds is complete, each
/// byte of each block that was changed when it began, as far as its cluster is known, has been
/// written from its own place in the flash to its place in that cluster, and each cluster once,
/// in rising order.
pub proof fn background_save_writes_every_byte(
    v: SdView,
    us: Seq<SdView>,
    ws: Seq<DmaWrite>,
    end: SdView,
    b: int,
    x: int,
)
    requires
        v.wf(),
        !v.active,
        background_save(v, us, ws),
        advances(
            under_way(us.last(), ws.last()),
            ws.last().cluster + 1,
            end,
            DmaStep::Complete,
        ),
        v.dirty.contains(b),
        b * 0x1_0000 <= x < (b + 1) * 0x1_0000,
        x / (512 * v.bpc) < v.num_clusters,
    ensures
        exists|k: int|
            {
                &&& 0 <= k < ws.len()
                &&& (#[trigger] ws[k]).off <= x < ws[k].off + ws[k].len
                &&& ws[k].off == x / (512 * v.bpc) * (512 * v.bpc)
                &&& ws[k].lba == v.lbas[x / (512 * v.bpc)]
            },
        forall|j: int, k: int|
            0 <= j < k < ws.len() ==> (#[trigger] ws[j]).cluster < (#[trigger] ws[k]).cluster,
        !end.active,
        end.flash == v.flash,
        end.dirty == Set::<int>::empty(),
{
    let n = ws.len() - 1;
    let cb = 512 * v.bpc;
    let c = x / cb;
    background_save_so_far(v, us, ws, n);
    assert forall|j: int, k: int| 0 <= j < k < ws.len() implies (#[trigger] ws[j]).cluster < (
    #[trigger] ws[k]).cluster by {
        background_save_so_far(v, us, ws, k);
    }
    vstd::arithmetic::div_mod::lemma_fundamental_div_mod(x, cb);
    vstd::arithmetic::div_mod::lemma_div_pos_is_pos(x, cb);
    assert(overlap(b, c, v.bpc)) by (nonlinear_arith)
        requires
            cb == cluster_bytes(v.bpc),
            cb > 0,
            x == cb * c + x % cb,
            0 <= x % cb < cb,
            b * BLOCK_SIZE <= x < (b + 1) * BLOCK_SIZE,
    ;
    assert(touched(v.dirty, v.bpc, v.num_clusters).contains(c));
    assert(handed_out(ws, n + 1, c));
    let k = choose|k: int| 0 <= k < n + 1 && (#[trigger] ws[k]).cluster == c;
    background_save_so_far(v, us, ws, k);
    assert(c * cb == cb * c) by (nonlinear_arith);
    assert(x < FLASH_SIZE);
}

/// A background save that fails forgets nothing: each block that was changed when it began is
/// changed again, whether a write could not be started or did not end well, and the next save
/// goes through the file system.
pub proof fn failed_background_save_forgets_nothing(
    v: SdView,
    us: Seq<SdView>,
    ws: Seq<DmaWrite>,
    k: int,
    b: int,
)
    requires
        v.wf(),
        !v.active,
        background_save(v, us, ws),
        0 <= k < ws.len(),
        v.dirty.contains(b),
    ensures
        aborted(us[k]).dirty.contains(b),
        aborted(under_way(us[k], ws[k])).dirty.contains(b),
        aborted(us[k]).num_clusters == 0,
        !aborted(us[k]).active,
        aborted(us[k]).flash == v.flash,
{
    background_save_so_far(v, us, ws, k);
}

/// A tick does nothing before the card is up and where there is nothing to save. It begins a save
/// where the file is not valid or a block is changed: through the file system while no cluster
/// addresses are known, and in the background once the address of a changed byte's cluster is.
pub proof fn tick_saves_what_is_changed(v: SdView, w: SdView, s: SaveStep, b: int)
    requires
        v.wf(),
        save_begins(v, w, s),
    ensures
        w.flash == v.flash,
        !v.init_done ==> s == SaveStep::Done && w == v,
        v.file_valid && (forall|x: int| !#[trigger] v.dirty.contains(x)) ==> s == SaveStep::Done && w
            == v,
        v.init_done && v.num_clusters == 0 && (!v.file_valid || v.dirty.contains(b)) ==> s
            == SaveStep::OpenVolume,
        v.init_done && v.num_clusters != 0 && !v.active && v.dirty.contains(b) && b * 0x1_0000
            < 512 * v.bpc * v.num_clusters ==> (s matches SaveStep::Dma(d) && d is Start),
{
    if forall|x: int| !#[trigger] v.dirty.contains(x) {
        assert(v.dirty =~= Set::<int>::empty());
    }
    if v.init_done && v.num_clusters != 0 && !v.active && v.dirty.contains(b) && b * 0x1_0000 < 512
        * v.bpc * v.num_clusters {
        let cb = cluster_bytes(v.bpc);
        let x = b * 0x1_0000;
        let c = x / cb;
        cluster_range(b, v.bpc, c);
        vstd::arithmetic::div_mod::lemma_fundamental_div_mod(x, cb);
        assert(c < v.num_clusters) by (nonlinear_arith)
            requires
                x == cb * c + x % cb,
                0 <= x % cb < cb,
                x < cb * v.num_clusters,
        ;
        vstd::arithmetic::div_mod::lemma_div_is_ordered(x, x + BLOCK_SIZE - 1, cb);
        assert(touched(v.dirty, v.bpc, v.num_clusters).contains(c));
    }
}

/// A tick while a cluster is under way starts nothing and forgets nothing.
pub proof fn no_second_save(v: SdView, w: SdView, s: SaveStep)
    requires
        v.active,
        v.num_clusters != 0,
        save_begins(v, w, s),
    ensures
        s == SaveStep::Done,
        w == v,
{
}

/// A write that the background save hands out may be reported as started: what still waits
/// comes behind it.
pub proof fn started_cluster_is_first(v: SdView, from: int, w: SdView, dw: DmaWrite)
    requires
        in_flash(v.pending, v.bpc),
        behind(v.pending, from - 1),
        advances(v, from, w, DmaStep::Start(dw)),
    ensures
        in_flash(w.pending, w.bpc),
        behind(w.pending, dw.cluster as int),
        dw.cluster < MAX_FLASH_CLUSTERS,
{
    assert forall|c: int| #[trigger] w.pending.contains(c) implies c > dw.cluster by {
        assert(v.pending.contains(c));
    }
    assert(v.pending.contains(dw.cluster as int));
}

/// When a background save completes after the cluster under way, no cluster is left waiting.
pub proof fn complete_means_drained(v: SdView, w: SdView)
    requires
        v.wf(),
        v.active,
        advances(v, v.cluster + 1, w, DmaStep::Complete),
    ensures
        w.pending == Set::<int>::empty(),
{
    assert(w.pending =~= Set::<int>::empty());
}

/// A background save covers every byte of every block it takes over that lies in a known
/// cluster: the cluster of that byte is started or waits.
pub proof fn save_covers_changed_bytes(v: SdView, w: SdView, d: DmaStep, b: int, x: int)
    requires
        v.wf(),
        !v.active,
        v.num_clusters != 0,
        starts_dma(v, w, SaveStep::Dma(d)),
        v.dirty.contains(b),
        b * BLOCK_SIZE <= x < (b + 1) * BLOCK_SIZE,
        x / cluster_bytes(v.bpc) < v.num_clusters,
    ensures
        w.pending.contains(x / cluster_bytes(v.bpc)) || (d matches DmaStep::Start(dw)
            && dw.cluster == x / cluster_bytes(v.bpc)),
{
    let cb = cluster_bytes(v.bpc);
    let c = x / cb;
    vstd::arithmetic::div_mod::lemma_fundamental_div_mod(x, cb);
    vstd::arithmetic::div_mod::lemma_div_pos_is_pos(x, cb);
    assert(overlap(b, c, v.bpc)) by (nonlinear_arith)
        requires
            cb == cluster_bytes(v.bpc),
            cb > 0,
            x == cb * c + x % cb,
            0 <= x % cb < cb,
            b * BLOCK_SIZE <= x < (b + 1) * BLOCK_SIZE,
    ;
    assert(touched(v.dirty, v.bpc, v.num_clusters).contains(c));
    if d is Complete {
        assert(bitmap::none_from(touched(v.dirty, v.bpc, v.num_clusters), 0));
    }
}

/// What became of the look-up of the cluster addresses.
pub enum Lookup {
    /// Clusters, blocks per cluster, and the clusters' first blocks.
    Found(usize, u32, Vec<u32>),
    /// Too many clusters, or none.
    Unusable,
    /// The card or the file system failed.
    Failed,
}

/// What the look-up comes to.
#[derive(Clone, Copy, PartialEq, Eq, Structural)]
pub enum MapOutcome {
    /// The addresses are known and checked.
    Verified,
    /// The first sector is not the flash's.
    Mismatch,
    /// The first sector could not be read.
    ReadFailed,
    Unusable,
    Failed,
}

impl SdBackend {
    /// Takes the file's cluster addresses, provided that the first sector at the first of
    /// them, read raw, is the flash's first sector. In any doubt saves stay on the file
    /// system.
    pub fn resolve_extent_map(&mut self, lookup: Lookup, sector: Option<&[u8; 512]>) -> (o: MapOutcome)
        requires
            old(self).wf(),
            old(self).file_valid,
            old(self).num_clusters == 0,
            !old(self).save_active,
            lookup matches Lookup::Found(n, bpc, lbas) ==> 0 < n <= MAX_FLASH_CLUSTERS && bpc > 0
                && lbas@.len() == MAX_FLASH_CLUSTERS,
        ensures
            final(self).wf(),
            match lookup {
                Lookup::Found(n, bpc, lbas) => match sector {
                    Some(s) => if s@ == old(self)@.flash.take(512) {
                        o == MapOutcome::Verified && final(self)@ == (SdView {
                            lbas: lbas@,
                            bpc: bpc as int,
                            num_clusters: n as int,
                            ..old(self)@
                        })
                    } else {
                        o == MapOutcome::Mismatch && final(self)@ == (SdView {
                            lbas: lbas@,
                            ..old(self)@
                        })
                    },
                    None => o == MapOutcome::ReadFailed && final(self)@ == (SdView {
                        lbas: lbas@,
                        ..old(self)@
                    }),
                },
                Lookup::Unusable => o == MapOutcome::Unusable && final(self)@ == old(self)@,
                Lookup::Failed => o == MapOutcome::Failed && final(self)@ == old(self)@,
            },
    {
        match lookup {
            Lookup::Unusable => MapOutcome::Unusable,
            Lookup::Failed => MapOutcome::Failed,
            Lookup::Found(n, bpc, lbas) => {
                self.lbas = lbas;
                match sector {
                    None => MapOutcome::ReadFailed,
                    Some(s) => {
                        let mut i: usize = 0;
                        while i < 512
                            invariant
                                i <= 512,
                                self.flash@.len() == FLASH_SIZE,
                                self.wf(),
                                self@ == (SdView { lbas: self@.lbas, ..old(self)@ }),
                                self@.lbas == lookup->Found_2@,
                                lookup is Found,
                                sector == Some(s),
                                forall|k: int| 0 <= k < i ==> #[trigger] s[k] == self.flash@[k],
                            decreases 512 - i,
                        {
                            if s[i] != self.flash[i] {
                                assert(s@[i as int] != self@.flash.take(512)[i as int]);
                                return MapOutcome::Mismatch;
                            }
                            i = i + 1;
                        }
                        assert(s@ =~= self@.flash.take(512));
                        self.bpc = bpc;
                        self.num_clusters = n;
                        MapOutcome::Verified
                    },
                }
            },
        }
    }
}

/// What a load does next.
#[derive(Clone, Copy, PartialEq, Eq, Structural)]
pub enum LoadStep {
    OpenVolume,
    OpenRoot,
    OpenFile,
    /// Ask for the file's length.
    Length,
    /// Read from the first offset to before the second.
    Read(usize, usize),
    /// Look up and check the cluster addresses.
    Resolve,
    /// The load has ended: why the flash was not loaded.
    Ended(LoadEnd),
}

/// Why a load ended before the flash was loaded.
#[derive(Clone, Copy, PartialEq, Eq, Structural)]
pub enum LoadEnd {
    NotInitialised,
    VolumeFailed,
    RootFailed,
    NoFile,
    WrongLength(u32),
    ReadFailed(usize),
    ShortRead(usize),
}

/// How an operation of a load went.
pub enum LoadEvent {
    Done,
    Failed,
    /// The file's length.
    Len(u32),
    /// Bytes that were read; none at the end of the file.
    Data(Vec<u8>),
}

/// The flash with `data` at `off`.
pub open spec fn with_data(flash: Seq<u8>, off: int, data: Seq<u8>) -> Seq<u8> {
    Seq::new(
        flash.len(),
        |i: int|
            if off <= i < off + data.len() {
                data[i - off]
            } else {
                flash[i]
            },
    )
}

/// Whether event `e` answers step `at`.
pub open spec fn answers(at: LoadStep, e: LoadEvent) -> bool {
    match at {
        LoadStep::OpenVolume | LoadStep::OpenRoot | LoadStep::OpenFile => e is Done || e is Failed,
        LoadStep::Length => e is Len,
        LoadStep::Read(off, end) => {
            &&& off < end <= FLASH_SIZE
            &&& e is Failed || (e matches LoadEvent::Data(d) && d@.len() <= end - off)
        },
        _ => true,
    }
}

/// Whether a load in state `v` goes from step `at` with event `e` to state `w` and step `s`.
pub open spec fn load_continues(
    v: SdView,
    at: LoadStep,
    e: LoadEvent,
    w: SdView,
    s: LoadStep,
) -> bool {
    match at {
        LoadStep::OpenVolume => w == v && s == if !v.init_done {
            LoadStep::Ended(LoadEnd::NotInitialised)
        } else if e is Done {
            LoadStep::OpenRoot
        } else {
            LoadStep::Ended(LoadEnd::VolumeFailed)
        },
        LoadStep::OpenRoot => w == v && s == if e is Done {
            LoadStep::OpenFile
        } else {
            LoadStep::Ended(LoadEnd::RootFailed)
        },
        LoadStep::OpenFile => w == v && s == if e is Done {
            LoadStep::Length
        } else {
            LoadStep::Ended(LoadEnd::NoFile)
        },
        LoadStep::Length => w == v && s == if e->Len_0 == FLASH_SIZE {
            LoadStep::Read(0, chunk_end(0, v.hdmi_audio) as usize)
        } else {
            LoadStep::Ended(LoadEnd::WrongLength(e->Len_0))
        },
        LoadStep::Read(off, end) => match e {
            LoadEvent::Data(d) => {
                let f = with_data(v.flash, off as int, d@);
                let next = off + d@.len();
                if d@.len() == 0 {
                    w == v && s == LoadStep::Ended(LoadEnd::ShortRead(off))
                } else if next < FLASH_SIZE {
                    &&& w == SdView { flash: f, ..v }
                    &&& s == LoadStep::Read(
                        next as usize,
                        chunk_end(next, v.hdmi_audio) as usize,
                    )
                } else {
                    &&& w == SdView { flash: f, file_valid: true, ..v }
                    &&& s == LoadStep::Resolve
                }
            },
            _ => w == v && s == LoadStep::Ended(LoadEnd::ReadFailed(off)),
        },
        _ => w == v && s == at,
    }
}

impl SdBackend {
    /// Decides the next operation of a load from how the last one went. The bytes that are
    /// read go into the flash; only a flash that was read whole makes the file valid.
    pub fn try_load(&mut self, at: LoadStep, e: LoadEvent) -> (s: LoadStep)
        requires
            old(self).wf(),
            answers(at, e),
        ensures
            final(self).wf(),
            load_continues(old(self)@, at, e, final(self)@, s),
    {
        match at {
            LoadStep::OpenVolume => {
                if !self.init_done {
                    return LoadStep::Ended(LoadEnd::NotInitialised);
                }
                match e {
                    LoadEvent::Done => LoadStep::OpenRoot,
                    _ => LoadStep::Ended(LoadEnd::VolumeFailed),
                }
            },
            LoadStep::OpenRoot => match e {
                LoadEvent::Done => LoadStep::OpenFile,
                _ => LoadStep::Ended(LoadEnd::RootFailed),
            },
            LoadStep::OpenFile => match e {
                LoadEvent::Done => LoadStep::Length,
                _ => LoadStep::Ended(LoadEnd::NoFile),
            },
            LoadStep::Length => match e {
                LoadEvent::Len(len) => {
                    if len as usize == FLASH_SIZE {
                        LoadStep::Read(0, self.end_of_chunk(0))
                    } else {
                        LoadStep::Ended(LoadEnd::WrongLength(len))
                    }
                },
                _ => LoadStep::Length,
            },
            LoadStep::Read(off, end) => match e {
                LoadEvent::Data(d) => {
                    if d.len() == 0 {
                        return LoadStep::Ended(LoadEnd::ShortRead(off));
                    }
                    let ghost f0 = self.flash@;
                    let mut i: usize = 0;
                    while i < d.len()
                        invariant
                            i <= d@.len() <= end - off,
                            off < end <= FLASH_SIZE,
                            f0.len() == FLASH_SIZE,
                            self.wf(),
                            self@ == (SdView { flash: self@.flash, ..old(self)@ }),
                            forall|k: int|
                                0 <= k < FLASH_SIZE ==> #[trigger] self.flash@[k] == if off <= k
                                    < off + i {
                                    d@[k - off]
                                } else {
                                    f0[k]
                                },
                        decreases d@.len() - i,
                    {
                        self.flash.set(off + i, d[i]);
                        i = i + 1;
                    }
                    assert(self.flash@ =~= with_data(f0, off as int, d@));
                    let next: usize = off + d.len();
                    if next < FLASH_SIZE {
                        LoadStep::Read(next, self.end_of_chunk(next))
                    } else {
                        self.file_valid = true;
                        LoadStep::Resolve
                    }
                },
                _ => LoadStep::Ended(LoadEnd::ReadFailed(off)),
            },
            _ => at,
        }
    }

    /// Takes note that the card is up; tells whether it was already.
    pub fn init(&mut self, host_ok: bool) -> (was: bool)
        requires
            old(self).wf(),
        ensures
            final(self).wf(),
            was == old(self).init_done,
            final(self)@ == (SdView { init_done: old(self).init_done || host_ok, ..old(self)@ }),
    {
        let was = self.init_done;
        if !was && host_ok {
            self.init_done = true;
        }
        was
    }
}

/// One read of a load goes on where the one before stopped, and what was read before stays:
/// after a read the flash holds the file up to the new offset.
pub proof fn load_is_a_prefix(v: SdView, file: Seq<u8>, off: int, d: Seq<u8>)
    requires
        v.flash.len() == FLASH_SIZE,
        file.len() == FLASH_SIZE,
        0 <= off,
        off + d.len() <= FLASH_SIZE,
        v.flash.take(off) == file.take(off),
        d == file.subrange(off, off + d.len()),
    ensures
        with_data(v.flash, off, d).take(off + d.len()) == file.take(off + d.len()),
{
    let f = with_data(v.flash, off, d);
    assert forall|i: int| 0 <= i < off + d.len() implies f[i] == file[i] by {
        if i < off {
            assert(v.flash.take(off)[i] == v.flash[i]);
            assert(file.take(off)[i] == file[i]);
        } else {
            assert(f[i] == d[i - off]);
            assert(file.subrange(off, off + d.len())[i - off] == file[i]);
        }
    }
    assert(f.take(off + d.len()) =~= file.take(off + d.len()));
}

/// A load of `file`: it starts with asking for the length, each event answers its step, the file
/// is as long as the flash, and each read brings the file's bytes from the offset asked for on.
pub open spec fn file_load(
    file: Seq<u8>,
    states: Seq<SdView>,
    steps: Seq<LoadStep>,
    events: Seq<LoadEvent>,
) -> bool {
    &&& states.len() == steps.len() == events.len()
    &&& steps.len() > 0
    &&& steps[0] == LoadStep::Length
    &&& forall|k: int|
        0 <= k < steps.len() ==> match #[trigger] events[k] {
            LoadEvent::Len(n) => n == file.len(),
            LoadEvent::Data(d) => steps[k] matches LoadStep::Read(off, _) && off + d@.len()
                <= file.len() && d@ == file.subrange(off as int, off + d@.len()),
            _ => true,
        }
    &&& forall|k: int|
        0 < k < steps.len() ==> answers(steps[k - 1], events[k - 1]) && load_continues(
            states[k - 1],
            steps[k - 1],
            events[k - 1],
            #[trigger] states[k],
            steps[k],
        )
}

proof fn load_so_far(
    file: Seq<u8>,
    states: Seq<SdView>,
    steps: Seq<LoadStep>,
    events: Seq<LoadEvent>,
    k: int,
)
    requires
        file_load(file, states, steps, events),
        states[0].flash.len() == FLASH_SIZE,
        0 <= k < steps.len(),
    ensures
        states[k].flash.len() == FLASH_SIZE,
        match steps[k] {
            LoadStep::Length => k == 0,
            LoadStep::Read(off, end) => {
                &&& states[k] == SdView { flash: states[k].flash, ..states[0] }
                &&& off < end <= FLASH_SIZE
                &&& file.len() == FLASH_SIZE
                &&& states[k].flash.take(off as int) == file.take(off as int)
            },
            LoadStep::Resolve => {
                &&& file.len() == FLASH_SIZE
                &&& states[k] == SdView { flash: file, file_valid: true, ..states[0] }
            },
            LoadStep::Ended(_) => states[k] == SdView { flash: states[k].flash, ..states[0] },
            _ => false,
        },
    decreases k,
{
    if k > 0 {
        load_so_far(file, states, steps, events, k - 1);
        assert(load_continues(states[k - 1], steps[k - 1], events[k - 1], states[k], steps[k]));
        assert(answers(steps[k - 1], events[k - 1]));
        let e = events[k - 1];
        match steps[k - 1] {
            LoadStep::Length => {
                assert(states[k].flash.take(0) =~= file.take(0));
            },
            LoadStep::Read(off, end) => {
                if let LoadEvent::Data(d) = e {
                    if d@.len() > 0 {
                        load_is_a_prefix(states[k - 1], file, off as int, d@);
                        let next = off + d@.len();
                        if next == FLASH_SIZE {
                            assert(states[k].flash.take(next) =~= states[k].flash);
                            assert(file.take(next) =~= file);
                        }
                    }
                }
            },
            _ => {},
        }
    }
}

/// A load gives the flash what the file holds: once the load comes to looking up the cluster
/// addresses, the flash is the file byte for byte and the file counts as valid. A load that has
/// not come so far, or has ended early, does not make the file valid; and the reads of a load
/// follow one another.
pub proof fn load_gives_the_file(
    file: Seq<u8>,
    states: Seq<SdView>,
    steps: Seq<LoadStep>,
    events: Seq<LoadEvent>,
    n: int,
)
    requires
        file_load(file, states, steps, events),
        states[0].flash.len() == FLASH_SIZE,
        0 <= n < steps.len(),
    ensures
        steps[n] is Resolve ==> states[n].flash == file && states[n].file_valid,
        steps[n] is Resolve ==> states[n] == (SdView {
            flash: states[n].flash,
            file_valid: true,
            ..states[0]
        }),
        !(steps[n] is Resolve) ==> states[n].file_valid == states[0].file_valid,
        !(steps[n] is Resolve) ==> states[n] == (SdView { flash: states[n].flash, ..states[0] }),
        n > 0 && file.len() != FLASH_SIZE ==> steps[n] is Ended && states[n] == states[0],
{
    load_so_far(file, states, steps, events, n);
    if n > 0 && file.len() != FLASH_SIZE {
        wrong_length_ends(file, states, steps, events, n);
    }
}

proof fn wrong_length_ends(
    file: Seq<u8>,
    states: Seq<SdView>,
    steps: Seq<LoadStep>,
    events: Seq<LoadEvent>,
    n: int,
)
    requires
        file_load(file, states, steps, events),
        file.len() != FLASH_SIZE,
        0 < n < steps.len(),
    ensures
        steps[n] is Ended,
        states[n] == states[0],
    decreases n,
{
    if n > 1 {
        wrong_length_ends(file, states, steps, events, n - 1);
    }
    assert(load_continues(states[n - 1], steps[n - 1], events[n - 1], states[n], steps[n]));
    assert(answers(steps[n - 1], events[n - 1]));
    if n == 1 {
        let e = events[0];
        assert(e is Len && e->Len_0 == file.len());
    }
}

/// A read that brings bytes is followed by a read from the first byte not brought yet, or, at the
/// end of the flash, by none; a read that brings none ends the load where it stood.
pub proof fn reads_follow_one_another(
    v: SdView,
    off: usize,
    end: usize,
    d: Vec<u8>,
    w: SdView,
    s: LoadStep,
)
    requires
        off < end <= FLASH_SIZE,
        d@.len() <= end - off,
        load_continues(v, LoadStep::Read(off, end), LoadEvent::Data(d), w, s),
    ensures
        d@.len() == 0 <==> s is Ended,
        d@.len() == 0 ==> s == LoadStep::Ended(LoadEnd::ShortRead(off)),
        d@.len() > 0 && off + d@.len() == FLASH_SIZE ==> s is Resolve,
        d@.len() > 0 && off + d@.len() < FLASH_SIZE ==> (s matches LoadStep::Read(a, e) && a == off
            + d@.len() && a < e <= FLASH_SIZE && e - a <= 0x1_0000),
{
}

/// The progress dots that a transfer prints between two offsets.
pub fn progress_dots(before: usize, after: usize) -> (dots: usize)
    requires
        before <= after <= FLASH_SIZE,
    ensures
        dots == after as int / 0x4_0000 - before as int / 0x4_0000,
{
    after / PROGRESS_DOT - before / PROGRESS_DOT
}

/// Milliseconds between two readings of a counter that runs at `freq` hertz; a difference
/// too large to scale saturates.
pub fn elapsed_ms(start: u64, end: u64, freq: u64) -> (ms: u64)
    ensures
        ({
            let ticks = end.wrapping_sub(start);
            let scaled = if ticks * 1000 <= u64::MAX {
                ticks * 1000
            } else {
                u64::MAX as int
            };
            ms == scaled / (if freq == 0 {
                1int
            } else {
                freq as int
            })
        }),
{
    let f: u64 = if freq == 0 {
        1
    } else {
        freq
    };
    let ticks: u64 = end.wrapping_sub(start);
    let scaled: u64 = if ticks <= u64::MAX / 1000 {
        ticks * 1000
    } else {
        u64::MAX
    };
    scaled / f
}

} // verus!
